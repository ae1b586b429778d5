//! West workspace logic: cache locations, the Zephyr `VERSION` file, the
//! `.west/config` file and the projects of a west manifest.  Paths are text
//! joined the way `PathBuf::push` joins them on Unix.
use vstd::prelude::*;
use crate::grammar::{find_char, lemma_find_char};
use crate::lines::{text_lines, trim, rows_v, split_lines, trimmed, chars_are, string_from};
use crate::parser::find_char_from;
use crate::text::{to_chars, push_str, push_chars, string_of, str_eq};

verus! {

// -------------------------------------------------------------------------
// Errors
// -------------------------------------------------------------------------

/// What can go wrong while locating and reading a west workspace.
#[derive(Debug, Clone, PartialEq)]
pub enum WestError {
    /// A file could not be read or written; the text says why.
    Io(String),
    /// No `.west/` directory was found from the given start.
    WorkspaceNotFound(String),
    /// The manifest is not valid YAML of the expected shape.
    ManifestParse(String),
    /// A git command failed.
    Git(String),
    /// The user's cache directory is unknown.
    NoCacheDir,
}

// -------------------------------------------------------------------------
// Paths
// -------------------------------------------------------------------------

/// `base` with `part` appended as `PathBuf::push` does: an absolute `part`
/// replaces `base`; otherwise a `/` separates the two unless `base` is
/// empty or already ends with one.
#[verifier::opaque]
pub open spec fn path_join(base: Seq<char>, part: Seq<char>) -> Seq<char> {
    if part.len() > 0 && part[0] == '/' {
        part
    } else if base.len() == 0 || base.last() == '/' {
        base + part
    } else {
        base + seq!['/'] + part
    }
}

/// `base` joined with `part`.
pub fn join_path(base: &str, part: &str) -> (r: String)
    ensures
        r@ == path_join(base@, part@),
{
    reveal(path_join);
    let p = to_chars(part);
    if p.len() > 0 && p[0] == '/' {
        return string_of(part);
    }
    let b = to_chars(base);
    let mut r = string_of(base);
    if b.len() > 0 && b[b.len() - 1] != '/' {
        r.push('/');
    }
    push_chars(&mut r, &p);
    r
}

pub open spec fn app_dir_name() -> Seq<char> {
    seq!['z', 'd', 't', 'w', 'a', 'l', 'k']
}

pub open spec fn hal_dir_name() -> Seq<char> {
    seq!['h', 'a', 'l', '_', 'd', 't', 's']
}

/// `<base>/zdtwalk/hal_dts/<sdk_version>/<project>`.
pub open spec fn hal_cache_dir(base: Seq<char>, sdk_version: Seq<char>, project: Seq<char>) -> Seq<
    char,
> {
    path_join(
        path_join(path_join(path_join(base, app_dir_name()), hal_dir_name()), sdk_version),
        project,
    )
}

/// The directory under the cache directory `base` that holds the files of
/// one HAL project for one Zephyr version.
pub fn project_cache_dir(base: &str, sdk_version: &str, project_name: &str) -> (r: String)
    ensures
        r@ == hal_cache_dir(base@, sdk_version@, project_name@),
{
    proof {
        reveal_strlit("zdtwalk");
        reveal_strlit("hal_dts");
        assert("zdtwalk"@ =~= app_dir_name());
        assert("hal_dts"@ =~= hal_dir_name());
    }
    let a = join_path(base, "zdtwalk");
    let b = join_path(a.as_str(), "hal_dts");
    let c = join_path(b.as_str(), sdk_version);
    join_path(c.as_str(), project_name)
}

/// Calls `dirs::cache_dir` and gives the directory as text.  Where it lies
/// depends on the environment and the user's home directory, so nothing is
/// claimed of the result.
#[verifier::external_body]
fn user_cache_dir() -> (r: Option<String>) {
    match dirs::cache_dir() {
        Some(p) => Some(p.to_string_lossy().into_owned()),
        None => None,
    }
}

/// The cache path for a HAL project's files:
/// `<cache_dir>/zdtwalk/hal_dts/<sdk_version>/<project_name>`.
pub fn cache_path_for(sdk_version: &str, project_name: &str) -> (r: Result<String, WestError>)
    ensures
        match r {
            Ok(p) => exists|base: Seq<char>| p@ == hal_cache_dir(base, sdk_version@, project_name@),
            Err(e) => e == WestError::NoCacheDir,
        },
{
    match user_cache_dir() {
        Some(base) => {
            let p = project_cache_dir(base.as_str(), sdk_version, project_name);
            assert(p@ == hal_cache_dir(base@, sdk_version@, project_name@));
            Ok(p)
        },
        None => Err(WestError::NoCacheDir),
    }
}

/// `sub` joined under the cache path of a project.
fn cache_subpath(sdk_version: &str, project_name: &str, sub: &str) -> (r: Result<String, WestError>)
    ensures
        match r {
            Ok(p) => exists|base: Seq<char>|
                p@ == path_join(hal_cache_dir(base, sdk_version@, project_name@), sub@),
            Err(e) => e == WestError::NoCacheDir,
        },
{
    match cache_path_for(sdk_version, project_name) {
        Ok(dir) => {
            let ghost base = choose|base: Seq<char>|
                dir@ == hal_cache_dir(base, sdk_version@, project_name@);
            let p = join_path(dir.as_str(), sub);
            assert(p@ == path_join(hal_cache_dir(base, sdk_version@, project_name@), sub@));
            Ok(p)
        },
        Err(e) => Err(e),
    }
}

/// The cache path of the `dts/` directory of a HAL project.
pub fn dts_cache_path(sdk_version: &str, project_name: &str) -> (r: Result<String, WestError>)
    ensures
        match r {
            Ok(p) => exists|base: Seq<char>|
                p@ == path_join(
                    hal_cache_dir(base, sdk_version@, project_name@),
                    seq!['d', 't', 's'],
                ),
            Err(e) => e == WestError::NoCacheDir,
        },
{
    proof {
        reveal_strlit("dts");
        assert("dts"@ =~= seq!['d', 't', 's']);
    }
    cache_subpath(sdk_version, project_name, "dts")
}

/// The cache path of the `bindings/` directory of a HAL project.
pub fn bindings_cache_path(sdk_version: &str, project_name: &str) -> (r: Result<String, WestError>)
    ensures
        match r {
            Ok(p) => exists|base: Seq<char>|
                p@ == path_join(
                    hal_cache_dir(base, sdk_version@, project_name@),
                    seq!['b', 'i', 'n', 'd', 'i', 'n', 'g', 's'],
                ),
            Err(e) => e == WestError::NoCacheDir,
        },
{
    proof {
        reveal_strlit("bindings");
        assert("bindings"@ =~= seq!['b', 'i', 'n', 'd', 'i', 'n', 'g', 's']);
    }
    cache_subpath(sdk_version, project_name, "bindings")
}

/// The path of the marker file that records that a HAL project has no
/// `dts/` directory.
pub fn no_dts_marker_path(sdk_version: &str, project_name: &str) -> (r: Result<String, WestError>)
    ensures
        match r {
            Ok(p) => exists|base: Seq<char>|
                p@ == path_join(
                    hal_cache_dir(base, sdk_version@, project_name@),
                    seq!['.', 'n', 'o', '_', 'd', 't', 's'],
                ),
            Err(e) => e == WestError::NoCacheDir,
        },
{
    proof {
        reveal_strlit(".no_dts");
        assert(".no_dts"@ =~= seq!['.', 'n', 'o', '_', 'd', 't', 's']);
    }
    cache_subpath(sdk_version, project_name, ".no_dts")
}

// -------------------------------------------------------------------------
// `key = value` lines
// -------------------------------------------------------------------------

/// The key and value of a `key = value` line: the line is trimmed, split at
/// its first `=`, and both sides trimmed again.
pub open spec fn key_val(line: Seq<char>) -> Option<(Seq<char>, Seq<char>)> {
    let t = trim(line);
    match find_char(t, 0, '=') {
        Some(k) => Some((trim(t.subrange(0, k)), trim(t.subrange(k + 1, t.len() as int)))),
        None => None,
    }
}

/// The view of an optional character vector.
pub open spec fn opt_chars(o: Option<Vec<char>>) -> Option<Seq<char>> {
    match o {
        Some(v) => Some(v@),
        None => None,
    }
}

/// The key and value of a `key = value` line, or `None` without a `=`.
fn key_value(line: &Vec<char>) -> (r: Option<(Vec<char>, Vec<char>)>)
    ensures
        match key_val(line@) {
            Some(kv) => r matches Some(x) && x.0@ == kv.0 && x.1@ == kv.1,
            None => r is None,
        },
{
    let t = trimmed(line, 0, line.len());
    assert(line@.subrange(0, line@.len() as int) =~= line@);
    match find_char_from(&t, 0, '=') {
        Some(k) => {
            proof {
                lemma_find_char(t@, 0, '=');
            }
            let key = trimmed(&t, 0, k);
            let val = trimmed(&t, k + 1, t.len());
            Some((key, val))
        },
        None => None,
    }
}

// -------------------------------------------------------------------------
// The Zephyr VERSION file
// -------------------------------------------------------------------------

/// The fields of a `VERSION` file seen so far.
pub struct VersionFields {
    pub major: Option<Seq<char>>,
    pub minor: Option<Seq<char>>,
    pub patch: Option<Seq<char>>,
    pub extra: Option<Seq<char>>,
}

/// The fields after one more line: a later line overrides an earlier one,
/// and an empty `EXTRAVERSION` is ignored.
pub open spec fn version_step(f: VersionFields, line: Seq<char>) -> VersionFields {
    match key_val(line) {
        Some(kv) => {
            let (key, val) = kv;
            if key == "VERSION_MAJOR"@ {
                VersionFields { major: Some(val), ..f }
            } else if key == "VERSION_MINOR"@ {
                VersionFields { minor: Some(val), ..f }
            } else if key == "PATCHLEVEL"@ {
                VersionFields { patch: Some(val), ..f }
            } else if key == "EXTRAVERSION"@ && val.len() > 0 {
                VersionFields { extra: Some(val), ..f }
            } else {
                f
            }
        },
        None => f,
    }
}

/// The fields found in the given lines, read from first to last.
pub open spec fn version_fields(lines: Seq<Seq<char>>) -> VersionFields
    decreases lines.len(),
{
    if lines.len() == 0 {
        VersionFields { major: None, minor: None, patch: None, extra: None }
    } else {
        version_step(version_fields(lines.drop_last()), lines.last())
    }
}

/// The version a `VERSION` file states: `major.minor.patch`, followed by
/// `-extra` when there is an extra version, or `unknown` when one of the
/// three numbers is missing.
pub open spec fn version_text(content: Seq<char>) -> Seq<char> {
    let f = version_fields(text_lines(content));
    match (f.major, f.minor, f.patch) {
        (Some(ma), Some(mi), Some(pa)) => ma + seq!['.'] + mi + seq!['.'] + pa + match f.extra {
            Some(ex) => seq!['-'] + ex,
            None => Seq::empty(),
        },
        _ => "unknown"@,
    }
}

/// The Zephyr version stated by the text of a `VERSION` file.
pub fn parse_version_file(content: &str) -> (r: String)
    ensures
        r@ == version_text(content@),
{
    let rows = split_lines(content);
    let mut major: Option<Vec<char>> = None;
    let mut minor: Option<Vec<char>> = None;
    let mut patch: Option<Vec<char>> = None;
    let mut extra: Option<Vec<char>> = None;
    let mut i: usize = 0;
    while i < rows.len()
        invariant
            i <= rows.len(),
            rows_v(rows@) == text_lines(content@),
            version_fields(rows_v(rows@).take(i as int)) == (VersionFields {
                major: opt_chars(major),
                minor: opt_chars(minor),
                patch: opt_chars(patch),
                extra: opt_chars(extra),
            }),
        decreases rows.len() - i,
    {
        proof {
            assert(rows_v(rows@).take(i + 1).drop_last() =~= rows_v(rows@).take(i as int));
            assert(rows_v(rows@).take(i + 1).last() == rows@[i as int]@);
        }
        match key_value(&rows[i]) {
            Some(kv) => {
                let (key, val) = kv;
                if chars_are(&key, "VERSION_MAJOR") {
                    major = Some(val);
                } else if chars_are(&key, "VERSION_MINOR") {
                    minor = Some(val);
                } else if chars_are(&key, "PATCHLEVEL") {
                    patch = Some(val);
                } else if chars_are(&key, "EXTRAVERSION") && val.len() > 0 {
                    extra = Some(val);
                }
            },
            None => {},
        }
        i = i + 1;
    }
    assert(rows_v(rows@).take(i as int) =~= rows_v(rows@));
    proof {
        reveal_strlit("unknown");
    }
    match (major, minor, patch) {
        (Some(ma), Some(mi), Some(pa)) => {
            let mut r = string_from(&ma);
            r.push('.');
            push_chars(&mut r, &mi);
            r.push('.');
            push_chars(&mut r, &pa);
            match extra {
                Some(ex) => {
                    r.push('-');
                    push_chars(&mut r, &ex);
                },
                None => {},
            }
            assert(r@ =~= version_text(content@));
            r
        },
        _ => string_of("unknown"),
    }
}

// -------------------------------------------------------------------------
// The `.west/config` file
// -------------------------------------------------------------------------

/// The values of `.west/config` that locate the manifest and Zephyr.
#[derive(Debug, Clone, PartialEq)]
pub struct WestConfig {
    pub manifest_path: String,
    pub manifest_file: Option<String>,
    pub zephyr_base: Option<String>,
}

/// What a scan of `.west/config` has seen so far: the current section and
/// the three values of interest.
pub struct ConfigScan {
    pub section: Seq<char>,
    pub path: Option<Seq<char>>,
    pub file: Option<Seq<char>>,
    pub base: Option<Seq<char>>,
}

/// Whether a trimmed line is a section header such as `[manifest]`.
pub open spec fn is_section(t: Seq<char>) -> bool {
    t.len() > 0 && t[0] == '[' && t.last() == ']'
}

/// The scan after one more line: a header opens a section; `path` and
/// `file` count under `[manifest]`, `base` under `[zephyr]`; a later value
/// overrides an earlier one.
pub open spec fn config_step(st: ConfigScan, line: Seq<char>) -> ConfigScan {
    let t = trim(line);
    if is_section(t) {
        ConfigScan { section: trim(t.subrange(1, t.len() - 1)), ..st }
    } else {
        match key_val(line) {
            Some(kv) => {
                let (key, val) = kv;
                if st.section == "manifest"@ && key == "path"@ {
                    ConfigScan { path: Some(val), ..st }
                } else if st.section == "manifest"@ && key == "file"@ {
                    ConfigScan { file: Some(val), ..st }
                } else if st.section == "zephyr"@ && key == "base"@ {
                    ConfigScan { base: Some(val), ..st }
                } else {
                    st
                }
            },
            None => st,
        }
    }
}

pub open spec fn config_scan(lines: Seq<Seq<char>>) -> ConfigScan
    decreases lines.len(),
{
    if lines.len() == 0 {
        ConfigScan { section: Seq::empty(), path: None, file: None, base: None }
    } else {
        config_step(config_scan(lines.drop_last()), lines.last())
    }
}

/// Reading `.west/config` line by line: a `[zephyr]` header followed by a
/// `base = v` line gives the Zephyr base `v`, whatever came before; under
/// any other section a `base` line leaves the base as it was.
pub proof fn law_config_base_under_zephyr(
    ls: Seq<Seq<char>>,
    header: Seq<char>,
    line: Seq<char>,
    v: Seq<char>,
)
    ensures
        (is_section(trim(header)) && trim(trim(header).subrange(1, trim(header).len() - 1))
            == "zephyr"@ && !is_section(trim(line)) && key_val(line) == Some(("base"@, v)))
            ==> config_scan(ls + seq![header, line]).base == Some(v),
        (is_section(trim(header)) && trim(trim(header).subrange(1, trim(header).len() - 1))
            != "zephyr"@ && !is_section(trim(line)) && key_val(line) == Some(("base"@, v)))
            ==> config_scan(ls + seq![header, line]).base == config_scan(ls).base,
{
    let all = ls + seq![header, line];
    assert(all.drop_last() =~= ls + seq![header]);
    assert((ls + seq![header]).drop_last() =~= ls);
    assert(all.last() == line);
    assert((ls + seq![header]).last() == header);
    reveal_strlit("zephyr");
    reveal_strlit("manifest");
    reveal_strlit("base");
    reveal_strlit("path");
    reveal_strlit("file");
    let mid = config_scan(ls + seq![header]);
    assert(mid == config_step(config_scan(ls), header));
    assert(config_scan(all) == config_step(mid, line));
    assert("base"@[0] != "path"@[0]);
    assert("base"@[0] != "file"@[0]);
    assert("zephyr"@.len() != "manifest"@.len());
}

/// The mathematical form of a west configuration.
pub struct WestConfigV {
    pub manifest_path: Seq<char>,
    pub manifest_file: Option<Seq<char>>,
    pub zephyr_base: Option<Seq<char>>,
}

impl View for WestConfig {
    type V = WestConfigV;

    open spec fn view(&self) -> WestConfigV {
        WestConfigV {
            manifest_path: self.manifest_path@,
            manifest_file: match self.manifest_file {
                Some(f) => Some(f@),
                None => None,
            },
            zephyr_base: match self.zephyr_base {
                Some(b) => Some(b@),
                None => None,
            },
        }
    }
}

/// The configuration that the text of `.west/config` gives; the manifest
/// path is `zephyr` when the file names none.
pub open spec fn west_config_of(content: Seq<char>) -> WestConfigV {
    let st = config_scan(text_lines(content));
    WestConfigV {
        manifest_path: match st.path {
            Some(p) => p,
            None => "zephyr"@,
        },
        manifest_file: st.file,
        zephyr_base: st.base,
    }
}

/// Reads the values of interest from the text of `.west/config`.
pub fn parse_west_config(content: &str) -> (r: WestConfig)
    ensures
        r@ == west_config_of(content@),
{
    let rows = split_lines(content);
    let mut section: Vec<char> = Vec::new();
    let mut path: Option<Vec<char>> = None;
    let mut file: Option<Vec<char>> = None;
    let mut base: Option<Vec<char>> = None;
    let mut i: usize = 0;
    while i < rows.len()
        invariant
            i <= rows.len(),
            rows_v(rows@) == text_lines(content@),
            config_scan(rows_v(rows@).take(i as int)) == (ConfigScan {
                section: section@,
                path: opt_chars(path),
                file: opt_chars(file),
                base: opt_chars(base),
            }),
        decreases rows.len() - i,
    {
        proof {
            assert(rows_v(rows@).take(i + 1).drop_last() =~= rows_v(rows@).take(i as int));
            assert(rows_v(rows@).take(i + 1).last() == rows@[i as int]@);
        }
        let line = &rows[i];
        let t = trimmed(line, 0, line.len());
        assert(line@.subrange(0, line@.len() as int) =~= line@);
        if t.len() > 0 && t[0] == '[' && t[t.len() - 1] == ']' {
            section = trimmed(&t, 1, t.len() - 1);
        } else {
            match key_value(line) {
                Some(kv) => {
                    let (key, val) = kv;
                    let in_manifest = chars_are(&section, "manifest");
                    if in_manifest && chars_are(&key, "path") {
                        path = Some(val);
                    } else if in_manifest && chars_are(&key, "file") {
                        file = Some(val);
                    } else if chars_are(&section, "zephyr") && chars_are(&key, "base") {
                        base = Some(val);
                    }
                },
                None => {},
            }
        }
        i = i + 1;
    }
    assert(rows_v(rows@).take(i as int) =~= rows_v(rows@));
    proof {
        reveal_strlit("zephyr");
    }
    let manifest_path = match path {
        Some(p) => string_from(&p),
        None => string_of("zephyr"),
    };
    let manifest_file = match file {
        Some(f) => Some(string_from(&f)),
        None => None,
    };
    let zephyr_base = match base {
        Some(b) => Some(string_from(&b)),
        None => None,
    };
    WestConfig { manifest_path, manifest_file, zephyr_base }
}

// -------------------------------------------------------------------------
// Workspace layout
// -------------------------------------------------------------------------

/// Information about a discovered Zephyr workspace.
#[derive(Debug, Clone, PartialEq)]
pub struct WorkspaceInfo {
    /// The root of the west workspace (the directory holding `.west/`).
    pub workspace_root: String,
    /// The Zephyr repository directory.
    pub zephyr_dir: String,
    /// The west manifest file.
    pub west_yml_path: String,
}

/// The directory the manifest lies in.
pub open spec fn manifest_dir_of(root: Seq<char>, c: WestConfigV) -> Seq<char> {
    path_join(root, c.manifest_path)
}

/// The directory that Zephyr is looked for in first: `[zephyr] base`, or
/// `zephyr` when the configuration names none.
pub open spec fn zephyr_candidate_of(root: Seq<char>, c: WestConfigV) -> Seq<char> {
    match c.zephyr_base {
        Some(b) => path_join(root, b),
        None => path_join(root, "zephyr"@),
    }
}

/// Where the configuration names a Zephyr base `b`, the candidate is that
/// base under the workspace root (or `b` itself when it is absolute); where
/// it names none, it is `zephyr` under the root.  So two configurations
/// with different relative bases give different candidates under the same
/// root.
pub proof fn law_zephyr_candidate_follows_base(root: Seq<char>, c: WestConfigV)
    ensures
        c.zephyr_base matches Some(b) ==> zephyr_candidate_of(root, c) == path_join(root, b),
        c.zephyr_base matches Some(b) ==> (b.len() > 0 && b[0] == '/'
            ==> zephyr_candidate_of(root, c) == b),
        c.zephyr_base matches Some(b) ==> ((b.len() == 0 || b[0] != '/') && root.len() > 0
            && root.last() != '/' ==> zephyr_candidate_of(root, c) == root + seq!['/'] + b),
        c.zephyr_base is None && root.len() > 0 && root.last() != '/' ==> zephyr_candidate_of(
            root,
            c,
        ) == root + "/zephyr"@,
{
    reveal(path_join);
    reveal_strlit("zephyr");
    reveal_strlit("/zephyr");
    assert(root + seq!['/'] + "zephyr"@ =~= root + "/zephyr"@);
}

/// The directory to look for Zephyr's `VERSION` file in first.
pub fn zephyr_candidate(root: &str, config: &WestConfig) -> (r: String)
    ensures
        r@ == zephyr_candidate_of(root@, config@),
{
    match &config.zephyr_base {
        Some(b) => join_path(root, b.as_str()),
        None => {
            proof {
                reveal_strlit("zephyr");
            }
            join_path(root, "zephyr")
        },
    }
}

/// The workspace rooted at `root`: the manifest lies under the manifest
/// path, in `west.yml` unless the configuration names another file; Zephyr
/// is the candidate directory when it holds a `VERSION` file
/// (`candidate_has_version`), else the manifest directory.
pub fn workspace_info(root: &str, config: &WestConfig, candidate_has_version: bool) -> (r:
    WorkspaceInfo)
    ensures
        r.workspace_root@ == root@,
        r.west_yml_path@ == path_join(
            manifest_dir_of(root@, config@),
            match config@.manifest_file {
                Some(f) => f,
                None => "west.yml"@,
            },
        ),
        r.zephyr_dir@ == if candidate_has_version {
            zephyr_candidate_of(root@, config@)
        } else {
            manifest_dir_of(root@, config@)
        },
{
    let manifest_dir = join_path(root, config.manifest_path.as_str());
    let west_yml = match &config.manifest_file {
        Some(f) => join_path(manifest_dir.as_str(), f.as_str()),
        None => join_path(manifest_dir.as_str(), "west.yml"),
    };
    let zephyr_dir = if candidate_has_version {
        zephyr_candidate(root, config)
    } else {
        manifest_dir
    };
    WorkspaceInfo { workspace_root: string_of(root), zephyr_dir, west_yml_path: west_yml }
}

// -------------------------------------------------------------------------
// West manifest projects
// -------------------------------------------------------------------------

/// The `defaults` section of a west manifest.
#[derive(Debug, Clone, PartialEq)]
pub struct ManifestDefaults {
    pub remote: Option<String>,
}

/// A named git remote: projects on it live under `url_base`.
#[derive(Debug, Clone, PartialEq)]
pub struct Remote {
    pub name: String,
    pub url_base: String,
}

/// A project of a west manifest.
#[derive(Debug, Clone, PartialEq)]
pub struct Project {
    pub name: String,
    pub revision: String,
    pub path: Option<String>,
    pub remote: Option<String>,
    pub repo_path: Option<String>,
    pub groups: Vec<String>,
    /// Whether the project carries an `import` directive, whatever its form.
    pub import: bool,
}

/// The `manifest` section of a west manifest.
#[derive(Debug, Clone, PartialEq)]
pub struct ManifestContent {
    pub defaults: ManifestDefaults,
    pub remotes: Vec<Remote>,
    pub projects: Vec<Project>,
    pub group_filter: Vec<String>,
}

/// Whether project `p` belongs to group `g`.
pub open spec fn in_group(p: Project, g: Seq<char>) -> bool {
    exists|i: int| 0 <= i < p.groups@.len() && #[trigger] p.groups@[i]@ == g
}

/// The projects of `ps` that belong to the `hal` group, in order.
pub open spec fn hal_only(ps: Seq<Project>) -> Seq<Project>
    decreases ps.len(),
{
    if ps.len() == 0 {
        Seq::empty()
    } else if in_group(ps.last(), "hal"@) {
        hal_only(ps.drop_last()).push(ps.last())
    } else {
        hal_only(ps.drop_last())
    }
}

/// The first remote at or after `k` with the given name.
pub open spec fn remote_named_from(rs: Seq<Remote>, name: Seq<char>, k: int) -> Option<int>
    decreases rs.len() - k,
{
    if !(0 <= k < rs.len()) {
        None
    } else if rs[k].name@ == name {
        Some(k)
    } else {
        remote_named_from(rs, name, k + 1)
    }
}

/// The git URL of project `p`: the URL base of its remote (or of the
/// default remote), a `/`, and its repository path (or its name); `None`
/// when no remote is named or the named one is not listed.
pub open spec fn git_url(m: ManifestContent, p: Project) -> Option<Seq<char>> {
    let remote = remote_of(m, p);
    let repo = match p.repo_path {
        Some(r) => r@,
        None => p.name@,
    };
    match remote {
        Some(n) => match remote_named_from(m.remotes@, n, 0) {
            Some(i) => Some(m.remotes@[i].url_base@ + seq!['/'] + repo),
            None => None,
        },
        None => None,
    }
}

/// The remote a project is fetched from: its own, or the default one.
pub open spec fn remote_of(m: ManifestContent, p: Project) -> Option<Seq<char>> {
    match p.remote {
        Some(r) => Some(r@),
        None => match m.defaults.remote {
            Some(r) => Some(r@),
            None => None,
        },
    }
}

/// The local path of a project: its `path`, or its name.
pub open spec fn local_path_of(p: Project) -> Seq<char> {
    match p.path {
        Some(q) => q@,
        None => p.name@,
    }
}

impl Project {
    /// The path of the project relative to the workspace root.
    pub fn local_path(&self) -> (r: &str)
        ensures
            r@ == local_path_of(*self),
    {
        match &self.path {
            Some(p) => p.as_str(),
            None => self.name.as_str(),
        }
    }

    /// Whether the project's own manifest is to be merged in.
    pub fn has_import(&self) -> (r: bool)
        ensures
            r == self.import,
    {
        self.import
    }

    /// Whether the project belongs to group `g`.
    pub fn in_group(&self, g: &str) -> (r: bool)
        ensures
            r == in_group(*self, g@),
    {
        let mut k: usize = 0;
        while k < self.groups.len()
            invariant
                k <= self.groups.len(),
                forall|i: int| 0 <= i < k ==> #[trigger] self.groups@[i]@ != g@,
            decreases self.groups.len() - k,
        {
            if str_eq(self.groups[k].as_str(), g) {
                return true;
            }
            k = k + 1;
        }
        false
    }
}

/// Whether a remote named `n` is among `rs`.
pub open spec fn has_remote_named(rs: Seq<Remote>, n: Seq<char>) -> bool {
    exists|i: int| 0 <= i < rs.len() && #[trigger] rs[i].name@ == n
}

/// Whether a project named `n` is among `ps`.
pub open spec fn has_project_named(ps: Seq<Project>, n: Seq<char>) -> bool {
    exists|i: int| 0 <= i < ps.len() && #[trigger] ps[i].name@ == n
}

/// `rs` with the remotes of `add` appended in order, each only when no
/// remote of its name is there yet.
pub open spec fn remotes_merged(rs: Seq<Remote>, add: Seq<Remote>) -> Seq<Remote>
    decreases add.len(),
{
    if add.len() == 0 {
        rs
    } else {
        let before = remotes_merged(rs, add.drop_last());
        if has_remote_named(before, add.last().name@) {
            before
        } else {
            before.push(add.last())
        }
    }
}

/// `ps` with the projects of `add` appended in order, each only when no
/// project of its name is there yet.
pub open spec fn projects_merged(ps: Seq<Project>, add: Seq<Project>) -> Seq<Project>
    decreases add.len(),
{
    if add.len() == 0 {
        ps
    } else {
        let before = projects_merged(ps, add.drop_last());
        if has_project_named(before, add.last().name@) {
            before
        } else {
            before.push(add.last())
        }
    }
}

/// Whether a remote named `n` is among `rs`.
fn remote_listed(rs: &Vec<Remote>, n: &str) -> (r: bool)
    ensures
        r == has_remote_named(rs@, n@),
{
    let mut k: usize = 0;
    while k < rs.len()
        invariant
            k <= rs.len(),
            forall|i: int| 0 <= i < k ==> rs@[i].name@ != n@,
        decreases rs.len() - k,
    {
        if str_eq(rs[k].name.as_str(), n) {
            return true;
        }
        k = k + 1;
    }
    false
}

/// Whether a project named `n` is among `ps`.
fn project_listed(ps: &Vec<Project>, n: &str) -> (r: bool)
    ensures
        r == has_project_named(ps@, n@),
{
    let mut k: usize = 0;
    while k < ps.len()
        invariant
            k <= ps.len(),
            forall|i: int| 0 <= i < k ==> ps@[i].name@ != n@,
        decreases ps.len() - k,
    {
        if str_eq(ps[k].name.as_str(), n) {
            return true;
        }
        k = k + 1;
    }
    false
}

impl ManifestContent {
    /// Merges an imported manifest: its remotes and projects are appended,
    /// each only when none of the same name is there yet.
    pub fn merge_imported(&mut self, other: ManifestContent)
        ensures
            final(self).remotes@ == remotes_merged(old(self).remotes@, other.remotes@),
            final(self).projects@ == projects_merged(old(self).projects@, other.projects@),
            final(self).defaults == old(self).defaults,
            final(self).group_filter == old(self).group_filter,
    {
        let ghost r0 = self.remotes@;
        let ghost p0 = self.projects@;
        let ghost ra = other.remotes@;
        let ghost pa = other.projects@;
        let mut add = other.remotes;
        let _total = add.len();
        let mut k: usize = 0;
        while add.len() > 0
            invariant
                k + add@.len() == ra.len(),
                ra.len() <= usize::MAX,
                add@ == ra.subrange(k as int, ra.len() as int),
                self.remotes@ == remotes_merged(r0, ra.take(k as int)),
                self.defaults == old(self).defaults,
                self.group_filter == old(self).group_filter,
                self.projects@ == p0,
            decreases add.len(),
        {
            let r = add.remove(0);
            assert(ra.take(k + 1).drop_last() =~= ra.take(k as int));
            assert(r == ra[k as int]);
            if !remote_listed(&self.remotes, r.name.as_str()) {
                self.remotes.push(r);
            }
            k = k + 1;
            assert(add@ =~= ra.subrange(k as int, ra.len() as int));
        }
        assert(ra.take(k as int) =~= ra);
        let mut addp = other.projects;
        let _totalp = addp.len();
        let mut j: usize = 0;
        while addp.len() > 0
            invariant
                j + addp@.len() == pa.len(),
                pa.len() <= usize::MAX,
                addp@ == pa.subrange(j as int, pa.len() as int),
                self.projects@ == projects_merged(p0, pa.take(j as int)),
                self.remotes@ == remotes_merged(r0, ra),
                self.defaults == old(self).defaults,
                self.group_filter == old(self).group_filter,
            decreases addp.len(),
        {
            let q = addp.remove(0);
            assert(pa.take(j + 1).drop_last() =~= pa.take(j as int));
            assert(q == pa[j as int]);
            if !project_listed(&self.projects, q.name.as_str()) {
                self.projects.push(q);
            }
            j = j + 1;
            assert(addp@ =~= pa.subrange(j as int, pa.len() as int));
        }
        assert(pa.take(j as int) =~= pa);
    }

    /// The projects in the `hal` group, in manifest order.
    pub fn hal_projects(&self) -> (r: Vec<&Project>)
        ensures
            r@.map_values(|p: &Project| *p) == hal_only(self.projects@),
    {
        proof {
            reveal_strlit("hal");
        }
        let mut r: Vec<&Project> = Vec::new();
        let mut k: usize = 0;
        while k < self.projects.len()
            invariant
                k <= self.projects.len(),
                r@.map_values(|p: &Project| *p) == hal_only(self.projects@.take(k as int)),
            decreases self.projects.len() - k,
        {
            let ghost before = r@;
            let p = &self.projects[k];
            proof {
                let t = self.projects@.take(k + 1);
                assert(t.drop_last() =~= self.projects@.take(k as int));
                assert(t.last() == *p);
            }
            if p.in_group("hal") {
                r.push(p);
                assert(r@.map_values(|p: &Project| *p) =~= before.map_values(|p: &Project| *p).push(
                    *p,
                ));
            }
            k = k + 1;
        }
        assert(self.projects@.take(k as int) =~= self.projects@);
        r
    }

    /// The full git URL of a project, when its remote is known.
    pub fn resolve_git_url(&self, project: &Project) -> (r: Option<String>)
        ensures
            match git_url(*self, *project) {
                Some(u) => r is Some && r->0@ == u,
                None => r is None,
            },
    {
        let remote_name: &str = match &project.remote {
            Some(r) => r.as_str(),
            None => match &self.defaults.remote {
                Some(r) => r.as_str(),
                None => {
                    return None;
                },
            },
        };
        let mut k: usize = 0;
        while k < self.remotes.len()
            invariant
                k <= self.remotes.len(),
                remote_of(*self, *project) == Some(remote_name@),
                remote_named_from(self.remotes@, remote_name@, 0) == remote_named_from(
                    self.remotes@,
                    remote_name@,
                    k as int,
                ),
            decreases self.remotes.len() - k,
        {
            if str_eq(self.remotes[k].name.as_str(), remote_name) {
                let repo: &str = match &project.repo_path {
                    Some(rp) => rp.as_str(),
                    None => project.name.as_str(),
                };
                let mut url = string_of(self.remotes[k].url_base.as_str());
                url.push('/');
                push_str(&mut url, repo);
                assert(remote_named_from(self.remotes@, remote_name@, k as int) == Some(k as int));
                assert(url@ =~= self.remotes@[k as int].url_base@ + seq!['/'] + repo@);
                assert(repo@ == match project.repo_path {
                    Some(r) => r@,
                    None => project.name@,
                });
                assert(git_url(*self, *project) == Some(url@));
                return Some(url);
            }
            k = k + 1;
        }
        None
    }
}

// -------------------------------------------------------------------------
// HAL module sources
// -------------------------------------------------------------------------

/// Where the DTS files of a HAL project came from.
#[derive(Debug, Clone, Copy, PartialEq, Eq, Structural)]
pub enum DtsSource {
    /// The local workspace checkout.
    Local,
    /// The cache.
    Cached,
    /// A fresh fetch from the remote repository.
    Fetched,
    /// The repository has neither `dts/` nor `bindings/`.
    NoDts,
}

/// A resolved HAL DTS source.
#[derive(Debug, Clone, PartialEq)]
pub struct HalDtsEntry {
    pub project_name: String,
    /// The `dts/` directory, when there is one.
    pub dts_path: Option<String>,
    /// The `bindings/` directory, when there is one.
    pub bindings_path: Option<String>,
    pub source: DtsSource,
}

/// The entry for a project whose `dts/` and `bindings/` directories were
/// looked for in one place: `None` when neither is there, else each
/// directory that is there.
pub fn found_entry(
    project_name: &str,
    dts_dir: String,
    has_dts: bool,
    bindings_dir: String,
    has_bindings: bool,
    source: DtsSource,
) -> (r: Option<HalDtsEntry>)
    ensures
        !(has_dts || has_bindings) ==> r is None,
        (has_dts || has_bindings) ==> (r matches Some(e) && e.project_name@ == project_name@
            && e.source == source && (if has_dts {
            e.dts_path == Some(dts_dir)
        } else {
            e.dts_path is None
        }) && (if has_bindings {
            e.bindings_path == Some(bindings_dir)
        } else {
            e.bindings_path is None
        })),
{
    if !(has_dts || has_bindings) {
        return None;
    }
    Some(
        HalDtsEntry {
            project_name: string_of(project_name),
            dts_path: if has_dts {
                Some(dts_dir)
            } else {
                None
            },
            bindings_path: if has_bindings {
                Some(bindings_dir)
            } else {
                None
            },
            source,
        },
    )
}

/// The entry for a project marked as having no DTS files.
pub fn no_dts_entry(project_name: &str) -> (r: HalDtsEntry)
    ensures
        r.project_name@ == project_name@,
        r.dts_path is None,
        r.bindings_path is None,
        r.source == DtsSource::NoDts,
{
    HalDtsEntry {
        project_name: string_of(project_name),
        dts_path: None,
        bindings_path: None,
        source: DtsSource::NoDts,
    }
}

} // verus!
