//! Planning the install of declared dependencies: where each artifact is
//! downloaded from, where it is cached, which sha256 it must have; the
//! check of downloaded bytes against that sha256; and the default
//! directories.

use vstd::prelude::*;
use crate::crypto::{sha256_spec, sha256_digest, hex_lower_bytes, hex_lower_string};
use crate::text::{string_from, chars_of, string_of, push_chars, push_str, chars_eq, views, has_prefix};

verus! {

/// Where releases are published.
pub const RELEASE_BASE: &'static str = "https://github.com/developerinlondon/assay/releases/download";

/// One declared extension binary, with a sha256 per architecture.
#[derive(Debug, Clone, PartialEq, Eq)]
pub struct Extension {
    pub name: String,
    pub version: String,
    /// The sha256 (lower-case hex) for each architecture token, such as
    /// `x86_64` or `aarch64`, read as a map: where a token occurs more than
    /// once, its first entry is the one that counts (see `hash_for`). Read
    /// from a manifest's table, no token occurs twice.
    pub sha256: Vec<(String, String)>,
    /// A full URL that replaces the release convention.
    pub source: Option<String>,
}

/// One declared Lua library tarball (the same for every architecture).
#[derive(Debug, Clone, PartialEq, Eq)]
pub struct Lib {
    pub name: String,
    pub version: String,
    pub sha256: String,
    pub source: Option<String>,
}

/// What a manifest declares.
#[derive(Debug, Clone, PartialEq, Eq)]
pub struct Manifest {
    /// The version of assay the manifest was written for (advisory).
    pub assay: Option<String>,
    pub extensions: Vec<Extension>,
    pub libs: Vec<Lib>,
}

/// Where one artifact comes from, where it is cached, and what its sha256
/// must be.
#[derive(Debug, Clone, PartialEq, Eq)]
pub struct FetchPlan {
    /// Name and version, for progress and errors.
    pub display_name: String,
    pub url: String,
    pub cache_path: String,
    /// Lower-case hex.
    pub expected_sha256: String,
}

/// Why an artifact could not be planned or fetched. Failures of the
/// network and the file system are reported by the caller.
#[derive(Debug, Clone, PartialEq, Eq)]
pub enum FetchError {
    /// The extension declares no sha256 for the architecture.
    NoArchHash { name: String, arch: String, available: Vec<String> },
    /// The server answered with a status other than success.
    Status { name: String, url: String, status: u16 },
    /// The bytes do not have the declared sha256.
    Sha256Mismatch { name: String, expected: String, actual: String },
    /// The artifact is not cached and no download is allowed.
    OfflineMissing { name: String, cache_path: String },
}

/// `dir` joined with `file` as `Path::join` does: a file path that is
/// absolute replaces the directory; otherwise one `/` separates them unless
/// the directory is empty or already ends with one.
pub open spec fn join_path(dir: Seq<char>, file: Seq<char>) -> Seq<char> {
    if has_prefix(file, "/"@) || dir.len() == 0 {
        file
    } else if dir.last() == '/' {
        dir + file
    } else {
        dir + "/"@ + file
    }
}

/// `Path::join` on two paths given as text.
pub fn join_path_exec(dir: &str, file: &str) -> (r: String)
    ensures
        r@ == join_path(dir@, file@),
{
    let d = chars_of(dir);
    let f = chars_of(file);
    let slash = chars_of("/");
    if crate::text::starts_with(&f, &slash) || d.len() == 0 {
        return string_of(&f);
    }
    let mut out = d;
    if out[out.len() - 1] != '/' {
        push_str(&mut out, "/");
    }
    push_chars(&mut out, &f);
    string_of(&out)
}

/// `name version`.
pub open spec fn display_name_spec(name: Seq<char>, version: Seq<char>) -> Seq<char> {
    name + " "@ + version
}

/// The release URL of an extension binary:
/// `<base>/v<version>/<name>-<version>-<arch>.tar.gz`.
pub open spec fn extension_url_spec(name: Seq<char>, version: Seq<char>, arch: Seq<char>) -> Seq<char> {
    RELEASE_BASE@ + "/v"@ + version + "/"@ + name + "-"@ + version + "-"@ + arch + ".tar.gz"@
}

/// The release URL of a library tarball:
/// `<base>/assay-lib-<name>-v<version>/assay-lib-<name>-<version>.tar.gz`.
pub open spec fn lib_url_spec(name: Seq<char>, version: Seq<char>) -> Seq<char> {
    RELEASE_BASE@ + "/assay-lib-"@ + name + "-v"@ + version + "/assay-lib-"@ + name + "-"@ + version
        + ".tar.gz"@
}

/// The file an extension's artifact is cached under.
pub open spec fn extension_file_spec(name: Seq<char>, version: Seq<char>, arch: Seq<char>) -> Seq<char> {
    name + "-"@ + version + "-"@ + arch + ".tar.gz"@
}

/// The file a library's artifact is cached under.
pub open spec fn lib_file_spec(name: Seq<char>, version: Seq<char>) -> Seq<char> {
    "assay-lib-"@ + name + "-"@ + version + ".tar.gz"@
}

/// The release URL of an extension binary.
pub fn default_extension_url(name: &str, version: &str, arch: &str) -> (r: String)
    ensures
        r@ == extension_url_spec(name@, version@, arch@),
{
    let mut c = chars_of(RELEASE_BASE);
    push_str(&mut c, "/v");
    push_str(&mut c, version);
    push_str(&mut c, "/");
    push_str(&mut c, name);
    push_str(&mut c, "-");
    push_str(&mut c, version);
    push_str(&mut c, "-");
    push_str(&mut c, arch);
    push_str(&mut c, ".tar.gz");
    string_of(&c)
}

/// The release URL of a library tarball.
pub fn default_lib_url(name: &str, version: &str) -> (r: String)
    ensures
        r@ == lib_url_spec(name@, version@),
{
    let mut c = chars_of(RELEASE_BASE);
    push_str(&mut c, "/assay-lib-");
    push_str(&mut c, name);
    push_str(&mut c, "-v");
    push_str(&mut c, version);
    push_str(&mut c, "/assay-lib-");
    push_str(&mut c, name);
    push_str(&mut c, "-");
    push_str(&mut c, version);
    push_str(&mut c, ".tar.gz");
    string_of(&c)
}

/// The sha256 declared for `arch`, if any: that of the first entry for it.
pub open spec fn hash_for(hs: Seq<(String, String)>, arch: Seq<char>) -> Option<Seq<char>>
    decreases hs.len(),
{
    if hs.len() == 0 {
        None
    } else if hs[0].0@ == arch {
        Some(hs[0].1@)
    } else {
        hash_for(hs.drop_first(), arch)
    }
}

/// The architectures an extension declares a sha256 for.
pub open spec fn arch_tokens(hs: Seq<(String, String)>) -> Seq<Seq<char>> {
    hs.map_values(|h: (String, String)| h.0@)
}

/// The text of an optional string.
pub open spec fn opt_text(o: Option<String>) -> Option<Seq<char>> {
    match o {
        Some(s) => Some(s@),
        None => None,
    }
}

fn lookup_hash(hs: &Vec<(String, String)>, arch: &str) -> (r: Option<String>)
    ensures
        opt_text(r) == hash_for(hs@, arch@),
{
    let a = chars_of(arch);
    let mut i: usize = 0;
    assert(hs@.skip(0) =~= hs@);
    while i < hs.len()
        invariant
            i <= hs@.len(),
            a@ == arch@,
            hash_for(hs@, arch@) == hash_for(hs@.skip(i as int), arch@),
        decreases hs@.len() - i,
    {
        assert(hs@.skip(i as int).drop_first() =~= hs@.skip(i + 1));
        let k = chars_of(hs[i].0.as_str());
        if chars_eq(&k, &a) {
            return Some(string_from(hs[i].1.as_str()));
        }
        i += 1;
    }
    None
}

fn tokens_of(hs: &Vec<(String, String)>) -> (r: Vec<String>)
    ensures
        views(r@) == arch_tokens(hs@),
{
    let mut out: Vec<String> = Vec::new();
    let mut i: usize = 0;
    while i < hs.len()
        invariant
            i <= hs@.len(),
            views(out@) == arch_tokens(hs@.take(i as int)),
        decreases hs@.len() - i,
    {
        let ghost before = out@;
        out.push(string_from(hs[i].0.as_str()));
        assert(views(out@) =~= views(before).push(hs@[i as int].0@));
        i += 1;
        assert(arch_tokens(hs@.take(i as int)) =~= arch_tokens(hs@.take(i - 1)).push(hs@[i - 1].0@));
    }
    assert(hs@.take(i as int) =~= hs@);
    out
}

fn display_name(name: &str, version: &str) -> (r: String)
    ensures
        r@ == display_name_spec(name@, version@),
{
    let mut c = chars_of(name);
    push_str(&mut c, " ");
    push_str(&mut c, version);
    string_of(&c)
}

/// Whether `p` is the plan for extension `ext` on `arch`: its name and
/// version, the sha256 declared for `arch`, the URL it names or else the
/// release convention, and its file in `cache_dir`.
pub open spec fn extension_plan(p: FetchPlan, ext: Extension, arch: Seq<char>, cache_dir: Seq<char>) -> bool {
    &&& p.display_name@ == display_name_spec(ext.name@, ext.version@)
    &&& hash_for(ext.sha256@, arch) == Some(p.expected_sha256@)
    &&& p.url@ == (match opt_text(ext.source) {
        Some(u) => u,
        None => extension_url_spec(ext.name@, ext.version@, arch),
    })
    &&& p.cache_path@ == join_path(cache_dir, extension_file_spec(ext.name@, ext.version@, arch))
}

/// Whether `p` is the plan for library `lib`.
pub open spec fn lib_plan(p: FetchPlan, lib: Lib, cache_dir: Seq<char>) -> bool {
    &&& p.display_name@ == display_name_spec(lib.name@, lib.version@)
    &&& p.expected_sha256@ == lib.sha256@
    &&& p.url@ == (match opt_text(lib.source) {
        Some(u) => u,
        None => lib_url_spec(lib.name@, lib.version@),
    })
    &&& p.cache_path@ == join_path(cache_dir, lib_file_spec(lib.name@, lib.version@))
}

impl FetchPlan {
    /// The plan for an extension binary on `arch`: refused where the
    /// extension declares no sha256 for it.
    pub fn for_extension(ext: &Extension, arch: &str, cache_dir: &str) -> (r: Result<FetchPlan, FetchError>)
        ensures
            match hash_for(ext.sha256@, arch@) {
                Some(_) => r matches Ok(p) && extension_plan(p, *ext, arch@, cache_dir@),
                None => r matches Err(FetchError::NoArchHash { name, arch: a, available }) && name@
                    == display_name_spec(ext.name@, ext.version@) && a@ == arch@ && views(available@)
                    == arch_tokens(ext.sha256@),
            },
    {
        let name = display_name(ext.name.as_str(), ext.version.as_str());
        let expected = match lookup_hash(&ext.sha256, arch) {
            Some(h) => h,
            None => {
                return Err(
                    FetchError::NoArchHash {
                        name,
                        arch: string_from(arch),
                        available: tokens_of(&ext.sha256),
                    },
                );
            },
        };
        let mut file = chars_of(ext.name.as_str());
        push_str(&mut file, "-");
        push_str(&mut file, ext.version.as_str());
        push_str(&mut file, "-");
        push_str(&mut file, arch);
        push_str(&mut file, ".tar.gz");
        let file = string_of(&file);
        let url = match &ext.source {
            Some(u) => string_from(u.as_str()),
            None => default_extension_url(ext.name.as_str(), ext.version.as_str(), arch),
        };
        let cache_path = join_path_exec(cache_dir, file.as_str());
        Ok(FetchPlan { display_name: name, url, cache_path, expected_sha256: expected })
    }

    /// The plan for a library tarball.
    pub fn for_lib(lib: &Lib, cache_dir: &str) -> (p: FetchPlan)
        ensures
            lib_plan(p, *lib, cache_dir@),
    {
        let name = display_name(lib.name.as_str(), lib.version.as_str());
        let mut file = chars_of("assay-lib-");
        push_str(&mut file, lib.name.as_str());
        push_str(&mut file, "-");
        push_str(&mut file, lib.version.as_str());
        push_str(&mut file, ".tar.gz");
        let file = string_of(&file);
        let url = match &lib.source {
            Some(u) => string_from(u.as_str()),
            None => default_lib_url(lib.name.as_str(), lib.version.as_str()),
        };
        let cache_path = join_path_exec(cache_dir, file.as_str());
        FetchPlan { display_name: name, url, cache_path, expected_sha256: string_from(lib.sha256.as_str()) }
    }
}

/// The sha256 of bytes in lower-case hex.
pub fn sha256_hex(bytes: &[u8]) -> (r: String)
    ensures
        r@ == hex_lower_bytes(sha256_spec(bytes@)),
{
    let d = sha256_digest(bytes);
    hex_lower_string(d.as_slice())
}

/// Checks downloaded or cached bytes against the plan's sha256.
pub fn verify_sha256(plan: &FetchPlan, bytes: &[u8]) -> (r: Result<(), FetchError>)
    ensures
        (r is Ok) == (hex_lower_bytes(sha256_spec(bytes@)) == plan.expected_sha256@),
        r matches Err(FetchError::Sha256Mismatch { name, expected, actual }) ==> name@
            == plan.display_name@ && expected@ == plan.expected_sha256@ && actual@
            == hex_lower_bytes(sha256_spec(bytes@)),
        r is Err ==> r matches Err(FetchError::Sha256Mismatch { .. }),
{
    let actual = sha256_hex(bytes);
    let a = chars_of(actual.as_str());
    let e = chars_of(plan.expected_sha256.as_str());
    if chars_eq(&a, &e) {
        Ok(())
    } else {
        Err(
            FetchError::Sha256Mismatch {
                name: string_from(plan.display_name.as_str()),
                expected: string_from(plan.expected_sha256.as_str()),
                actual,
            },
        )
    }
}

/// Whether an HTTP status is a success (2xx).
pub fn status_ok(status: u16) -> (r: bool)
    ensures
        r == (200 <= status <= 299),
{
    200 <= status && status <= 299
}

/// The refusal of a download that did not succeed.
pub fn status_error(plan: &FetchPlan, status: u16) -> (r: FetchError)
    ensures
        r matches FetchError::Status { name, url, status: s } && name@ == plan.display_name@ && url@
            == plan.url@ && s == status,
{
    FetchError::Status { name: string_from(plan.display_name.as_str()), url: string_from(plan.url.as_str()), status }
}

/// The refusal of an uncached artifact in offline mode.
pub fn offline_missing(plan: &FetchPlan) -> (r: FetchError)
    ensures
        r matches FetchError::OfflineMissing { name, cache_path } && name@ == plan.display_name@
            && cache_path@ == plan.cache_path@,
{
    FetchError::OfflineMissing {
        name: string_from(plan.display_name.as_str()),
        cache_path: string_from(plan.cache_path.as_str()),
    }
}


/// The value of an environment variable as plain characters.
pub open spec fn var_view(v: Option<&str>) -> Option<Seq<char>> {
    match v {
        Some(s) => Some(s@),
        None => None,
    }
}

/// The default cache directory: the system one for root, else under
/// `XDG_CACHE_HOME`, else under `HOME`, else a directory in `/tmp`.
pub open spec fn cache_dir_spec(root: bool, xdg_cache: Option<Seq<char>>, home: Option<Seq<char>>) -> Seq<char> {
    if root {
        "/var/cache/assay"@
    } else if let Some(x) = xdg_cache {
        join_path(x, "assay"@)
    } else if let Some(h) = home {
        join_path(h, ".cache/assay"@)
    } else {
        "/tmp/assay-cache"@
    }
}

/// The default directory for extension binaries.
pub open spec fn bin_dir_spec(root: bool, home: Option<Seq<char>>) -> Seq<char> {
    if root {
        "/usr/local/bin"@
    } else if let Some(h) = home {
        join_path(h, ".local/bin"@)
    } else {
        "/usr/local/bin"@
    }
}

/// The default directory for Lua libraries: `ASSAY_LIB_DIR` where set,
/// else the system one for root, else under `XDG_DATA_HOME`, else under
/// `HOME`.
pub open spec fn lib_dir_spec(
    explicit: Option<Seq<char>>,
    root: bool,
    xdg_data: Option<Seq<char>>,
    home: Option<Seq<char>>,
) -> Seq<char> {
    if let Some(e) = explicit {
        e
    } else if root {
        "/opt/assay/libs"@
    } else if let Some(x) = xdg_data {
        join_path(x, "assay/libs"@)
    } else if let Some(h) = home {
        join_path(h, ".local/share/assay/libs"@)
    } else {
        "/opt/assay/libs"@
    }
}

/// The default cache directory, given whether the process runs as root
/// and the values of `XDG_CACHE_HOME` and `HOME`.
pub fn default_cache_dir(root: bool, xdg_cache: Option<&str>, home: Option<&str>) -> (r: String)
    ensures
        r@ == cache_dir_spec(root, var_view(xdg_cache), var_view(home)),
{
    if root {
        string_from("/var/cache/assay")
    } else if let Some(x) = xdg_cache {
        join_path_exec(x, "assay")
    } else if let Some(h) = home {
        join_path_exec(h, ".cache/assay")
    } else {
        string_from("/tmp/assay-cache")
    }
}

/// The default directory for extension binaries, given whether the process
/// runs as root and the value of `HOME`.
pub fn default_bin_dir(root: bool, home: Option<&str>) -> (r: String)
    ensures
        r@ == bin_dir_spec(root, var_view(home)),
{
    if root {
        string_from("/usr/local/bin")
    } else if let Some(h) = home {
        join_path_exec(h, ".local/bin")
    } else {
        string_from("/usr/local/bin")
    }
}

/// The default directory for Lua libraries, given `ASSAY_LIB_DIR`, whether
/// the process runs as root, `XDG_DATA_HOME` and `HOME`.
pub fn default_lib_dir(explicit: Option<&str>, root: bool, xdg_data: Option<&str>, home: Option<&str>) -> (r: String)
    ensures
        r@ == lib_dir_spec(var_view(explicit), root, var_view(xdg_data), var_view(home)),
{
    if let Some(e) = explicit {
        string_from(e)
    } else if root {
        string_from("/opt/assay/libs")
    } else if let Some(x) = xdg_data {
        join_path_exec(x, "assay/libs")
    } else if let Some(h) = home {
        join_path_exec(h, ".local/share/assay/libs")
    } else {
        string_from("/opt/assay/libs")
    }
}

/// The plans of everything a manifest declares, extensions first; refused
/// at the first extension with no sha256 for `arch`.
pub fn plan_all(m: &Manifest, arch: &str, cache_dir: &str) -> (r: Result<(Vec<FetchPlan>, Vec<FetchPlan>), FetchError>)
    ensures
        match r {
            Ok((e, l)) => {
                &&& e@.len() == m.extensions@.len()
                &&& l@.len() == m.libs@.len()
                &&& forall|i: int| 0 <= i < e@.len() ==> extension_plan(#[trigger] e@[i], m.extensions@[i], arch@, cache_dir@)
                &&& forall|i: int| 0 <= i < l@.len() ==> lib_plan(#[trigger] l@[i], m.libs@[i], cache_dir@)
            },
            Err(FetchError::NoArchHash { name, arch: a, .. }) => a@ == arch@ && exists|i: int|
                0 <= i < m.extensions@.len() && hash_for(#[trigger] m.extensions@[i].sha256@, arch@) is None
                    && name@ == display_name_spec(m.extensions@[i].name@, m.extensions@[i].version@),
            Err(_) => false,
        },
{
    let mut ext_plans: Vec<FetchPlan> = Vec::new();
    let mut i: usize = 0;
    while i < m.extensions.len()
        invariant
            i <= m.extensions@.len(),
            ext_plans@.len() == i,
            forall|k: int| 0 <= k < i ==> extension_plan(#[trigger] ext_plans@[k], m.extensions@[k], arch@, cache_dir@),
        decreases m.extensions@.len() - i,
    {
        match FetchPlan::for_extension(&m.extensions[i], arch, cache_dir) {
            Ok(p) => ext_plans.push(p),
            Err(e) => {
                return Err(e);
            },
        }
        i += 1;
    }
    let mut lib_plans: Vec<FetchPlan> = Vec::new();
    let mut j: usize = 0;
    while j < m.libs.len()
        invariant
            j <= m.libs@.len(),
            lib_plans@.len() == j,
            forall|k: int| 0 <= k < j ==> lib_plan(#[trigger] lib_plans@[k], m.libs@[k], cache_dir@),
        decreases m.libs@.len() - j,
    {
        lib_plans.push(FetchPlan::for_lib(&m.libs[j], cache_dir));
        j += 1;
    }
    Ok((ext_plans, lib_plans))
}

/// Where the fetch of one artifact stands.
#[derive(Debug, Clone, Copy, PartialEq, Eq, Structural)]
pub enum FetchStage {
    /// Reading the cache entry.
    Probing,
    /// Removing a cache entry whose sha256 is wrong.
    Discarding,
    /// Waiting for the server's answer.
    Downloading,
    /// Reading the body of a successful answer.
    Receiving,
    /// Writing the checked bytes to the cache.
    Writing,
    /// Done.
    Finished,
}

/// What the caller reports back from the action it was given.
#[derive(Debug, PartialEq, Eq)]
pub enum FetchEvent {
    /// There is no cache entry.
    NotCached,
    /// The cache entry holds these bytes.
    Cached(Vec<u8>),
    /// The bad cache entry is gone (or its removal failed, which is let be).
    Discarded,
    /// The server answered with this status.
    Responded(u16),
    /// The body of the answer.
    Received(Vec<u8>),
    /// The bytes are in the cache, written to a temporary file and renamed.
    Written,
}

/// What the caller does next. Failures of the file system and the network
/// along the way are the caller's to report.
#[derive(Debug, PartialEq, Eq)]
pub enum FetchAction {
    ReadCache,
    DiscardCache,
    Download,
    ReadBody,
    /// Write `bytes` to `tmp_path`, then rename it to the cache path.
    WriteCache { tmp_path: String, bytes: Vec<u8> },
    Done(Result<(), FetchError>),
}

/// Whether an event answers the action of a stage.
pub open spec fn fits(stage: FetchStage, e: FetchEvent) -> bool {
    match stage {
        FetchStage::Probing => e is NotCached || e is Cached,
        FetchStage::Discarding => e is Discarded,
        FetchStage::Downloading => e is Responded,
        FetchStage::Receiving => e is Received,
        FetchStage::Writing => e is Written,
        FetchStage::Finished => false,
    }
}

/// Whether bytes have the plan's sha256.
pub open spec fn sha_ok(plan: FetchPlan, bytes: Seq<u8>) -> bool {
    hex_lower_bytes(sha256_spec(bytes)) == plan.expected_sha256@
}

/// A fetch starts by reading the cache entry.
pub fn fetch_start() -> (r: (FetchStage, FetchAction))
    ensures
        r.0 == FetchStage::Probing && r.1 is ReadCache,
{
    (FetchStage::Probing, FetchAction::ReadCache)
}

fn no_cache_entry(plan: &FetchPlan, offline: bool) -> (r: (FetchStage, FetchAction))
    ensures
        offline ==> r.0 == FetchStage::Finished && (r.1 matches FetchAction::Done(Err(
            FetchError::OfflineMissing { name, cache_path },
        )) && name@ == plan.display_name@ && cache_path@ == plan.cache_path@),
        !offline ==> r.0 == FetchStage::Downloading && r.1 is Download,
{
    if offline {
        (FetchStage::Finished, FetchAction::Done(Err(offline_missing(plan))))
    } else {
        (FetchStage::Downloading, FetchAction::Download)
    }
}

/// One step of fetching an artifact into the cache: a cache entry with the
/// right sha256 is used as it is, a wrong one is removed; without a usable
/// entry, an offline fetch fails and any other downloads; a status other
/// than 2xx fails; downloaded bytes go into the cache only once their
/// sha256 is the plan's, through a temporary file beside the entry.
pub fn fetch_step(plan: &FetchPlan, offline: bool, stage: FetchStage, e: FetchEvent) -> (r: (FetchStage, FetchAction))
    requires
        fits(stage, e),
    ensures
        r.1 is Download ==> !offline,
        r.1 matches FetchAction::WriteCache { bytes, .. } ==> sha_ok(*plan, bytes@),
        match e {
            FetchEvent::NotCached | FetchEvent::Discarded => if offline {
                r.0 == FetchStage::Finished && (r.1 matches FetchAction::Done(Err(
                    FetchError::OfflineMissing { name, cache_path },
                )) && name@ == plan.display_name@ && cache_path@ == plan.cache_path@)
            } else {
                r.0 == FetchStage::Downloading && r.1 is Download
            },
            FetchEvent::Cached(b) => if sha_ok(*plan, b@) {
                r.0 == FetchStage::Finished && r.1 == FetchAction::Done(Ok(()))
            } else {
                r.0 == FetchStage::Discarding && r.1 is DiscardCache
            },
            FetchEvent::Responded(s) => if 200 <= s <= 299 {
                r.0 == FetchStage::Receiving && r.1 is ReadBody
            } else {
                r.0 == FetchStage::Finished && (r.1 matches FetchAction::Done(Err(
                    FetchError::Status { name, url, status },
                )) && name@ == plan.display_name@ && url@ == plan.url@ && status == s)
            },
            FetchEvent::Received(b) => if sha_ok(*plan, b@) {
                r.0 == FetchStage::Writing && (r.1 matches FetchAction::WriteCache { tmp_path, bytes }
                    && tmp_path@ == plan.cache_path@ + ".tmp"@ && bytes@ == b@)
            } else {
                r.0 == FetchStage::Finished && (r.1 matches FetchAction::Done(Err(
                    FetchError::Sha256Mismatch { name, expected, actual },
                )) && name@ == plan.display_name@ && expected@ == plan.expected_sha256@ && actual@
                    == hex_lower_bytes(sha256_spec(b@)))
            },
            FetchEvent::Written => r.0 == FetchStage::Finished && r.1 == FetchAction::Done(Ok(())),
        },
{
    match e {
        FetchEvent::NotCached | FetchEvent::Discarded => no_cache_entry(plan, offline),
        FetchEvent::Cached(b) => {
            if verify_sha256(plan, b.as_slice()).is_ok() {
                (FetchStage::Finished, FetchAction::Done(Ok(())))
            } else {
                (FetchStage::Discarding, FetchAction::DiscardCache)
            }
        },
        FetchEvent::Responded(s) => {
            if status_ok(s) {
                (FetchStage::Receiving, FetchAction::ReadBody)
            } else {
                (FetchStage::Finished, FetchAction::Done(Err(status_error(plan, s))))
            }
        },
        FetchEvent::Received(b) => {
            match verify_sha256(plan, b.as_slice()) {
                Ok(()) => {
                    let mut t = chars_of(plan.cache_path.as_str());
                    push_str(&mut t, ".tmp");
                    (FetchStage::Writing, FetchAction::WriteCache { tmp_path: string_of(&t), bytes: b })
                },
                Err(err) => (FetchStage::Finished, FetchAction::Done(Err(err))),
            }
        },
        FetchEvent::Written => (FetchStage::Finished, FetchAction::Done(Ok(()))),
    }
}

} // verus!
