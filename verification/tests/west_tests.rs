use std::path::Path;
use zdtwalk::west::{
    bindings_cache_path, cache_path_for, dts_cache_path, found_entry, join_path,
    no_dts_entry, no_dts_marker_path, parse_version_file, parse_west_config,
    project_cache_dir, workspace_info, zephyr_candidate, DtsSource, ManifestContent,
    ManifestDefaults, Project, Remote, WestError,
};

#[test]
fn test_cache_path_structure() {
    let path = cache_path_for("0.17.0", "hal_stm32").unwrap();
    assert!(Path::new(&path).ends_with("zdtwalk/hal_dts/0.17.0/hal_stm32"));
}

#[test]
fn test_dts_cache_path_structure() {
    let path = dts_cache_path("0.17.0", "hal_stm32").unwrap();
    assert!(Path::new(&path).ends_with("zdtwalk/hal_dts/0.17.0/hal_stm32/dts"));
}

#[test]
fn bindings_and_marker_paths_share_the_project_dir() {
    let dir = cache_path_for("0.17.0", "hal_nxp").unwrap();
    assert_eq!(bindings_cache_path("0.17.0", "hal_nxp").unwrap(), format!("{dir}/bindings"));
    assert_eq!(no_dts_marker_path("0.17.0", "hal_nxp").unwrap(), format!("{dir}/.no_dts"));
}

#[test]
fn project_cache_dir_layout() {
    assert_eq!(
        project_cache_dir("/home/u/.cache", "4.0.0", "hal_stm32"),
        "/home/u/.cache/zdtwalk/hal_dts/4.0.0/hal_stm32"
    );
    assert_eq!(project_cache_dir("/cache/", "1", "p"), "/cache/zdtwalk/hal_dts/1/p");
}

#[test]
fn join_path_rules() {
    assert_eq!(join_path("a", "b"), "a/b");
    assert_eq!(join_path("a/", "b"), "a/b");
    assert_eq!(join_path("", "b"), "b");
    assert_eq!(join_path("a", "/abs"), "/abs");
}

#[test]
fn version_with_empty_extra() {
    assert_eq!(
        parse_version_file("VERSION_MAJOR = 3\r\nVERSION_MINOR = 7\r\nPATCHLEVEL = 1\r\nEXTRAVERSION =\r\n"),
        "3.7.1"
    );
}

#[test]
fn version_missing_field_is_unknown() {
    assert_eq!(parse_version_file("VERSION_MAJOR = 3\nPATCHLEVEL = 1\n"), "unknown");
    assert_eq!(parse_version_file(""), "unknown");
}

#[test]
fn version_later_line_wins() {
    assert_eq!(
        parse_version_file("VERSION_MAJOR=1\nVERSION_MINOR=2\nPATCHLEVEL=3\nVERSION_MAJOR=9"),
        "9.2.3"
    );
}

#[test]
fn west_config_manifest_only() {
    let c = parse_west_config("[manifest]\npath = zephyr\n");
    assert_eq!(c.manifest_path, "zephyr");
    assert_eq!(c.manifest_file, None);
    assert_eq!(c.zephyr_base, None);
}

#[test]
fn west_config_with_zephyr_base() {
    let c = parse_west_config("[manifest]\npath = .west\nfile = west.yml\n\n[zephyr]\nbase = zephyr\n");
    assert_eq!(c.manifest_path, ".west");
    assert_eq!(c.manifest_file, Some("west.yml".to_string()));
    assert_eq!(c.zephyr_base, Some("zephyr".to_string()));
}

#[test]
fn west_config_defaults_and_sections() {
    let c = parse_west_config("[zephyr]\npath = other\n[manifest]\nbase = nope\n");
    assert_eq!(c.manifest_path, "zephyr");
    assert_eq!(c.zephyr_base, None);
}

#[test]
fn workspace_layout_from_config() {
    let c = parse_west_config("[manifest]\npath = .west\nfile = west.yml\n\n[zephyr]\nbase = zephyr\n");
    assert_eq!(zephyr_candidate("/ws", &c), "/ws/zephyr");
    let info = workspace_info("/ws", &c, true);
    assert_eq!(info.workspace_root, "/ws");
    assert_eq!(info.zephyr_dir, "/ws/zephyr");
    assert_eq!(info.west_yml_path, "/ws/.west/west.yml");
    let info = workspace_info("/ws", &c, false);
    assert_eq!(info.zephyr_dir, "/ws/.west");
}

fn project(name: &str, path: Option<&str>, remote: Option<&str>, repo: Option<&str>, groups: &[&str]) -> Project {
    Project {
        name: name.to_string(),
        revision: String::new(),
        path: path.map(|s| s.to_string()),
        remote: remote.map(|s| s.to_string()),
        repo_path: repo.map(|s| s.to_string()),
        groups: groups.iter().map(|s| s.to_string()).collect(),
        import: false,
    }
}

fn manifest() -> ManifestContent {
    ManifestContent {
        defaults: ManifestDefaults { remote: Some("upstream".to_string()) },
        remotes: vec![
            Remote { name: "upstream".into(), url_base: "https://github.com/zephyrproject-rtos".into() },
            Remote { name: "babblesim".into(), url_base: "https://github.com/BabbleSim".into() },
        ],
        projects: vec![
            project("hal_stm32", Some("modules/hal/stm32"), None, None, &["hal"]),
            project("babblesim_base", None, Some("babblesim"), Some("base"), &["babblesim"]),
            project("hal_nxp", None, None, None, &["hal", "x"]),
            project("lost", None, Some("nowhere"), None, &[]),
        ],
        group_filter: vec![],
    }
}

#[test]
fn git_url_of_default_remote() {
    let m = manifest();
    assert_eq!(
        m.resolve_git_url(&m.projects[0]).unwrap(),
        "https://github.com/zephyrproject-rtos/hal_stm32"
    );
}

#[test]
fn git_url_with_repo_path() {
    let m = manifest();
    assert_eq!(m.resolve_git_url(&m.projects[1]).unwrap(), "https://github.com/BabbleSim/base");
}

#[test]
fn resolve_git_url_unknown_remote() {
    let m = manifest();
    assert_eq!(m.resolve_git_url(&m.projects[3]), None);
    let mut m2 = manifest();
    m2.defaults.remote = None;
    assert_eq!(m2.resolve_git_url(&m2.projects[0]), None);
}

#[test]
fn project_local_path_falls_back_to_name() {
    let m = manifest();
    assert_eq!(m.projects[0].local_path(), "modules/hal/stm32");
    assert_eq!(m.projects[2].local_path(), "hal_nxp");
    assert!(!m.projects[0].has_import());
}

#[test]
fn hal_projects_in_order() {
    let m = manifest();
    let names: Vec<&str> = m.hal_projects().iter().map(|p| p.name.as_str()).collect();
    assert_eq!(names, vec!["hal_stm32", "hal_nxp"]);
}

#[test]
fn found_entry_keeps_present_dirs() {
    assert_eq!(found_entry("p", "d".into(), false, "b".into(), false, DtsSource::Local), None);
    let e = found_entry("p", "d".into(), true, "b".into(), false, DtsSource::Cached).unwrap();
    assert_eq!(e.project_name, "p");
    assert_eq!(e.dts_path, Some("d".to_string()));
    assert_eq!(e.bindings_path, None);
    assert_eq!(e.source, DtsSource::Cached);
    let n = no_dts_entry("q");
    assert_eq!(n.source, DtsSource::NoDts);
    assert_eq!(n.dts_path, None);
}

#[test]
fn no_cache_dir_error_is_distinct() {
    assert_ne!(WestError::NoCacheDir, WestError::Git("x".into()));
}

#[test]
fn imported_manifests_add_only_new_names() {
    let mut m = manifest();
    let before_remotes = m.remotes.len();
    let before_projects = m.projects.len();
    let first_remote = m.remotes[0].clone();
    let first_project = m.projects[0].clone();
    let other = ManifestContent {
        defaults: ManifestDefaults { remote: None },
        remotes: vec![
            Remote { name: first_remote.name.clone(), url_base: "https://elsewhere".to_string() },
            Remote { name: "extra".to_string(), url_base: "https://extra".to_string() },
        ],
        projects: vec![
            project(&first_project.name, Some("other/path"), None, None, &["hal"]),
            project("hal_new", None, Some("extra"), None, &["hal"]),
            project("hal_new", Some("dup"), None, None, &[]),
        ],
        group_filter: vec![],
    };
    m.merge_imported(other);
    assert_eq!(m.remotes.len(), before_remotes + 1);
    assert_eq!(m.remotes[0], first_remote);
    assert_eq!(m.remotes.last().unwrap().name, "extra");
    assert_eq!(m.projects.len(), before_projects + 1);
    assert_eq!(m.projects[0], first_project);
    let last = m.projects.last().unwrap();
    assert_eq!(last.name, "hal_new");
    assert_eq!(last.path, None);
    assert_eq!(m.resolve_git_url(last), Some("https://extra/hal_new".to_string()));
}

// Zephyr's west.yml lists many projects; this manifest carries the entries
// that the assertions below look at.

fn example_manifest() -> ManifestContent {
    let mut m = manifest();
    for name in [
        "hal_adi", "hal_altera", "hal_ambiq", "hal_atmel", "hal_espressif", "hal_ethos_u",
        "hal_gigadevice", "hal_infineon", "hal_intel", "hal_microchip", "hal_nordic",
        "hal_nuvoton", "hal_nxp_extra", "hal_openisa", "hal_quicklogic", "hal_renesas",
        "hal_rpi_pico", "hal_silabs", "hal_st", "hal_telink", "hal_ti", "hal_wurthelektronik",
    ] {
        m.projects.push(project(name, Some(&format!("modules/hal/{name}")), None, None, &["hal"]));
    }
    m
}

#[test]
fn test_hal_project_count() {
    let m = example_manifest();
    let hals = m.hal_projects();
    assert!(hals.len() > 20, "expected >20 HAL projects, got {}", hals.len());
}

#[test]
fn test_resolve_git_url_default_remote() {
    let m = example_manifest();
    let stm32 = m.projects.iter().find(|p| p.name == "hal_stm32").unwrap();
    let url = m.resolve_git_url(stm32).unwrap();
    assert_eq!(url, "https://github.com/zephyrproject-rtos/hal_stm32");
}

#[test]
fn test_resolve_git_url_with_repo_path() {
    let m = example_manifest();
    let bsim = m.projects.iter().find(|p| p.name == "babblesim_base").unwrap();
    let url = m.resolve_git_url(bsim).unwrap();
    assert_eq!(url, "https://github.com/BabbleSim/base");
}

#[test]
fn test_project_local_path() {
    let m = example_manifest();
    let stm32 = m.projects.iter().find(|p| p.name == "hal_stm32").unwrap();
    assert_eq!(stm32.local_path(), "modules/hal/stm32");
}

#[test]
fn test_get_zephyr_version() {
    let ver = parse_version_file(
        "VERSION_MAJOR = 4\nVERSION_MINOR = 3\nPATCHLEVEL = 0\nVERSION_TWEAK = 0\nEXTRAVERSION = rc2\n",
    );
    assert_eq!(ver, "4.3.0-rc2");
}

#[test]
fn test_get_zephyr_version_no_extra() {
    let ver = parse_version_file("VERSION_MAJOR = 3\nVERSION_MINOR = 7\nPATCHLEVEL = 1\n");
    assert_eq!(ver, "3.7.1");
}
