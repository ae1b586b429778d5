use zdtwalk::panel::Panel;
use zdtwalk::resolver::{merge_trees, Resolver};
use zdtwalk::west::{DtsSource, HalDtsEntry, WorkspaceInfo};
use zdtwalk::workspace::{
    board_file_kind, dts_search_paths, extract_includes_regex, include_dirs, includes_in_source,
    is_binding_ext, is_c_header_ext, is_hidden, overlay_scan_kind, skipped_dir, DirItem, FileKind,
    HalDirs, WorkspaceState,
};
use zdtwalk::{parse_dts, DeviceTree, DtsVersion, MemoryReservation};

#[test]
fn file_kinds_by_extension() {
    assert_eq!(FileKind::from_extension("dts"), Some(FileKind::Dts));
    assert_eq!(FileKind::from_extension("DTSI"), Some(FileKind::Dtsi));
    assert_eq!(FileKind::from_extension("overlay"), Some(FileKind::Overlay));
    assert_eq!(FileKind::from_extension("dtso"), Some(FileKind::Overlay));
    assert_eq!(FileKind::from_extension("Yaml"), Some(FileKind::Binding));
    assert_eq!(FileKind::from_extension("yml"), Some(FileKind::Binding));
    assert_eq!(FileKind::from_extension("h"), None);
    assert_eq!(FileKind::from_extension(""), None);
}

#[test]
fn hidden_names() {
    assert!(is_hidden(".west"));
    assert!(!is_hidden("zephyr"));
    assert!(!is_hidden(""));
}

#[test]
fn includes_found_line_by_line() {
    let src = "/dts-v1/;\n#include <arm/armv7-m.dtsi>\n  #include \"board.dtsi\"  \n#include nope\n#includes <x>\n/ {\n";
    assert_eq!(
        extract_includes_regex(src),
        vec!["arm/armv7-m.dtsi".to_string(), "board.dtsi".to_string()]
    );
    assert!(extract_includes_regex("#include <").is_empty());
}

#[test]
fn panel_cycle() {
    assert_eq!(Panel::Left.next(false), Panel::Center);
    assert_eq!(Panel::Right.next(false), Panel::Left);
    assert_eq!(Panel::Right.next(true), Panel::Debug);
    assert_eq!(Panel::Debug.next(true), Panel::Left);
    assert_eq!(Panel::Left.prev(false), Panel::Right);
    assert_eq!(Panel::Left.prev(true), Panel::Debug);
    for p in [Panel::Left, Panel::Center, Panel::Right] {
        assert_eq!(p.next(false).prev(false), p);
    }
    for p in [Panel::Left, Panel::Center, Panel::Right, Panel::Debug] {
        assert_eq!(p.next(true).prev(true), p);
    }
}

#[test]
fn merge_trees_combines() {
    let mut target = parse_dts("/ {\n\ta = <1>;\n};\n&x { y; };\n").unwrap();
    let source = parse_dts("/dts-v1/;\n/plugin/;\n/memreserve/ 0x10 0x20;\n/ {\n\tb = <2>;\n};\n&z { w; };\n").unwrap();
    merge_trees(&mut target, source);
    assert_eq!(target.version, Some(DtsVersion::V1));
    assert!(target.is_plugin);
    assert_eq!(target.memory_reservations, vec![MemoryReservation { address: 0x10, size: 0x20 }]);
    let root = target.root.as_ref().unwrap();
    assert!(root.property("a").is_some());
    assert!(root.property("b").is_some());
    assert_eq!(target.reference_nodes.len(), 2);
}

#[test]
fn merge_empty_source_changes_nothing() {
    let mut target = parse_dts("/dts-v1/;\n/ {\n\ta = <1>;\n};\n").unwrap();
    let before = format!("{:?}", target);
    merge_trees(&mut target, DeviceTree::new());
    assert_eq!(format!("{:?}", target), before);
}

#[test]
fn resolver_bookkeeping() {
    let mut r = Resolver::new();
    r.add_search_path("/a");
    r.add_file_dir("/a");
    r.add_file_dir("/b");
    assert_eq!(r.search_paths(), &vec!["/a".to_string(), "/b".to_string()]);
    assert!(r.start_file("/a/x.dts"));
    assert!(!r.start_file("/a/x.dts"));
    assert_eq!(
        r.include_candidates("inc.dtsi"),
        vec!["/a/inc.dtsi".to_string(), "/b/inc.dtsi".to_string()]
    );
    assert_eq!(
        r.include_candidates("/abs/inc.dtsi"),
        vec!["/abs/inc.dtsi".to_string(), "/abs/inc.dtsi".to_string(), "/abs/inc.dtsi".to_string()]
    );
}

#[test]
fn dts_search_paths_follow_the_zephyr_layout() {
    let ws = WorkspaceState {
        info: WorkspaceInfo {
            workspace_root: "/ws".to_string(),
            zephyr_dir: "/ws/zephyr".to_string(),
            west_yml_path: "/ws/zephyr/west.yml".to_string(),
        },
        zephyr_version: "3.7.0".to_string(),
        hal_entries: vec![
            HalDtsEntry {
                project_name: "hal_a".to_string(),
                dts_path: Some("/c/hal_a/dts".to_string()),
                bindings_path: None,
                source: DtsSource::Cached,
            },
            HalDtsEntry {
                project_name: "hal_b".to_string(),
                dts_path: Some("/c/hal_b/dts".to_string()),
                bindings_path: None,
                source: DtsSource::Cached,
            },
        ],
    };
    let items = vec![
        DirItem { name: "arm".to_string(), path: "/ws/zephyr/dts/arm".to_string() },
        DirItem { name: "bindings".to_string(), path: "/ws/zephyr/dts/bindings".to_string() },
        DirItem { name: "common".to_string(), path: "/ws/zephyr/dts/common".to_string() },
        DirItem { name: "vendor".to_string(), path: "/ws/zephyr/dts/vendor".to_string() },
        DirItem { name: "riscv".to_string(), path: "/ws/zephyr/dts/riscv".to_string() },
    ];
    let paths = dts_search_paths(&ws, "/ws/zephyr/boards/nordic/nrf52dk", true, &items, &vec![true, false]);
    assert_eq!(
        paths,
        vec![
            "/ws/zephyr/boards/nordic/nrf52dk",
            "/ws/zephyr/dts/common",
            "/ws/zephyr/dts/arm",
            "/ws/zephyr/dts/riscv",
            "/ws/zephyr/dts",
            "/ws/zephyr",
            "/c/hal_a/dts",
        ]
    );
}

#[test]
fn include_dirs_start_next_to_the_file() {
    let ws = WorkspaceState {
        info: WorkspaceInfo {
            workspace_root: "/ws".to_string(),
            zephyr_dir: "/ws/zephyr".to_string(),
            west_yml_path: "/ws/zephyr/west.yml".to_string(),
        },
        zephyr_version: "3.7.0".to_string(),
        hal_entries: vec![HalDtsEntry {
            project_name: "hal_a".to_string(),
            dts_path: Some("/c/hal_a/dts".to_string()),
            bindings_path: Some("/c/hal_a/bindings".to_string()),
            source: DtsSource::Local,
        }],
    };
    let items = vec![DirItem { name: "arm".to_string(), path: "/ws/zephyr/dts/arm".to_string() }];
    let dirs = include_dirs(
        &ws,
        "/ws/app",
        &Some(vec!["/ws/zephyr/dts/bindings/gpio".to_string()]),
        false,
        &items,
        &vec![HalDirs { dts_is_dir: false, bindings_subdirs: Some(vec!["/c/hal_a/bindings/x".to_string()]) }],
    );
    assert_eq!(
        dirs,
        vec![
            "/ws/app",
            "/ws/zephyr/dts/bindings",
            "/ws/zephyr/dts/bindings/gpio",
            "/ws/zephyr/dts/arm",
            "/ws/zephyr/dts",
            "/ws/zephyr",
            "/c/hal_a/bindings",
            "/c/hal_a/bindings/x",
        ]
    );
}

#[test]
fn scans_skip_build_and_hidden_dirs() {
    for d in [".git", ".west", "build", "target", "modules", "bootloader", "zephyr"] {
        assert!(skipped_dir(d), "{d}");
    }
    assert!(!skipped_dir("app"));
    assert!(!skipped_dir("Build"));
}

#[test]
fn scan_extensions() {
    assert_eq!(overlay_scan_kind("overlay"), Some(FileKind::Overlay));
    assert_eq!(overlay_scan_kind("dtso"), Some(FileKind::Overlay));
    assert_eq!(overlay_scan_kind("dts"), Some(FileKind::Dts));
    assert_eq!(overlay_scan_kind("dtsi"), Some(FileKind::Dtsi));
    assert_eq!(overlay_scan_kind("DTS"), None);
    assert_eq!(overlay_scan_kind("yaml"), None);
    assert!(is_binding_ext("yaml") && is_binding_ext("yml") && !is_binding_ext("YAML"));
    assert_eq!(board_file_kind("DTSI"), Some(FileKind::Dtsi));
    assert_eq!(board_file_kind("yaml"), None);
    assert_eq!(board_file_kind("txt"), None);
    assert!(is_c_header_ext("h"));
    assert!(!is_c_header_ext("dtsi"));
}

#[test]
fn includes_come_from_the_parse_or_the_lines() {
    let parsed = includes_in_source("/dts-v1/;\n#include <a.dtsi>\n/include/ \"b.dtsi\"\n/ { };\n");
    assert_eq!(parsed, Some(vec!["a.dtsi".to_string(), "b.dtsi".to_string()]));
    let broken = includes_in_source("#include \"c.dtsi\"\n/ { oops\n");
    assert_eq!(broken, Some(vec!["c.dtsi".to_string()]));
}
