use secaxis::commands::{check_import_file, find_tool, tool_status_with, tools_status};
use secaxis::icon::{bgra_to_rgba, icon_data_url, icon_file_name, icon_path, is_safe_icon_name};
use secaxis::model::{Config, EnvKind, Group, Tool, ToolKind};
use secaxis::probe::{probe_name, version_command, version_outcome};
use secaxis::tray::{tool_id_of_menu_item, tray_changed, tray_menu, tray_signature};

fn tool(id: &str, name: &str, group: Option<&str>, sort: i64) -> Tool {
    Tool {
        id: id.into(),
        name: name.into(),
        tool_type: ToolKind::Web,
        target: "https://x".into(),
        args: String::new(),
        env_id: None,
        group_id: group.map(|g| g.to_string()),
        icon: None,
        description: String::new(),
        sort,
    }
}

#[test]
fn tray_menu_keeps_configuration_order() {
    let mut cfg = Config::default();
    cfg.groups = vec![Group { id: "g1".into(), name: "扫描".into() }, Group { id: "g2".into(), name: "空".into() }];
    cfg.tools = vec![
        tool("a", "A", Some("g1"), 5),
        tool("b", "B", None, 0),
        tool("c", "C", Some("g1"), 1),
        tool("d", "D", Some(""), 0),
        tool("e", "E", Some("g1"), 5),
        tool("f", "F", Some("nope"), 0),
    ];
    let menu = tray_menu(&cfg);
    assert_eq!(menu.sections.len(), 1);
    assert_eq!(menu.sections[0].title, "扫描");
    let ids: Vec<&str> = menu.sections[0].entries.iter().map(|e| e.menu_id.as_str()).collect();
    assert_eq!(ids, vec!["t:a", "t:c", "t:e"]);
    let loose: Vec<&str> = menu.ungrouped.iter().map(|e| e.label.as_str()).collect();
    assert_eq!(loose, vec!["B", "D"]);
}

#[test]
fn tray_signature_tracks_ids_names_and_groups() {
    let mut cfg = Config::default();
    cfg.groups = vec![Group { id: "g".into(), name: "G".into() }];
    cfg.tools = vec![tool("a", "A", Some("g"), 0), tool("b", "B", None, 0)];
    assert_eq!(tray_signature(&cfg), "g:g|G;t:a|A|g;t:b|B|;");
    let mut next = cfg.clone();
    next.tools[0].sort = 9;
    next.tools[0].description = "changed".into();
    assert!(!tray_changed(&cfg, &next));
    let before = tray_menu(&cfg);
    let after = tray_menu(&next);
    let ids = |m: &secaxis::tray::TrayMenu| -> Vec<String> {
        m.sections.iter().flat_map(|s| s.entries.iter().map(|e| e.menu_id.clone())).collect()
    };
    assert_eq!(ids(&before), ids(&after));
    next.tools[1].name = "B2".into();
    assert!(tray_changed(&cfg, &next));
}

#[test]
fn menu_item_ids_name_tools() {
    assert_eq!(tool_id_of_menu_item("t:abc").as_deref(), Some("abc"));
    assert_eq!(tool_id_of_menu_item("quit"), None);
    assert_eq!(tool_id_of_menu_item("t:").as_deref(), Some(""));
}

#[test]
fn icon_files_and_names() {
    assert_eq!(icon_file_name(0), "exe-0000000000000000.png");
    assert_eq!(icon_file_name(0xdead_beef_0123_4567), "exe-deadbeef01234567.png");
    assert!(is_safe_icon_name("exe-1.png"));
    assert!(!is_safe_icon_name(""));
    assert!(!is_safe_icon_name("../x.png"));
    assert!(!is_safe_icon_name("a/b.png"));
    assert!(!is_safe_icon_name("a\\b.png"));
    assert!(!is_safe_icon_name("a..png"));
    assert_eq!(icon_path("C:\\d", "x.png").unwrap(), "C:\\d\\icons\\x.png");
    assert_eq!(icon_path("C:\\d", "..").unwrap_err(), "非法图标名");
    assert_eq!(icon_path("C:\\d", "E:x.png").unwrap(), "E:x.png");
}

#[test]
fn icon_data_urls_are_base64_png() {
    assert_eq!(icon_data_url(b"abc"), "data:image/png;base64,YWJj");
    assert_eq!(icon_data_url(b"ab"), "data:image/png;base64,YWI=");
    assert_eq!(icon_data_url(b""), "data:image/png;base64,");
    assert_eq!(icon_data_url(b"a"), "data:image/png;base64,YQ==");
    assert_eq!(icon_data_url(&[0xfbu8, 0xff, 0xbf, 0x00]), "data:image/png;base64,+/+/AA==");
}

#[test]
fn bitmaps_turn_from_bgra_to_rgba() {
    let mut opaque = vec![1u8, 2, 3, 0, 5, 6, 7, 0, 9];
    bgra_to_rgba(&mut opaque);
    assert_eq!(opaque, vec![3, 2, 1, 255, 7, 6, 5, 255, 9]);
    let mut alpha = vec![1u8, 2, 3, 0, 5, 6, 7, 8];
    bgra_to_rgba(&mut alpha);
    assert_eq!(alpha, vec![3, 2, 1, 0, 7, 6, 5, 8]);
}

#[test]
fn import_files_are_checked() {
    assert_eq!(check_import_file(false, 1, "a.json").unwrap_err(), "请选择一个配置文件（不是目录）");
    assert_eq!(
        check_import_file(true, 4_194_305, "a.json").unwrap_err(),
        "文件过大（4194305 字节），配置文件不应超过 4194304 字节"
    );
    assert_eq!(check_import_file(true, 10, "a.txt").unwrap_err(), "只接受 .json 配置文件，当前是 .txt");
    assert_eq!(check_import_file(true, 10, "noext").unwrap_err(), "只接受 .json 配置文件，当前是 .");
    assert!(check_import_file(true, 4_194_304, "C:\\x\\A.JSON").is_ok());
}

#[test]
fn tools_are_found_and_checked_by_id() {
    let mut cfg = Config::default();
    cfg.tools = vec![tool("a", "A", None, 0), tool("a", "A2", None, 0), tool("b", "B", None, 0)];
    assert_eq!(find_tool(&cfg, "a").unwrap().name, "A");
    assert!(find_tool(&cfg, "zz").is_none());
    let st = tool_status_with(&cfg.tools[0], &cfg, false, false);
    assert!(st.ok && st.missing.is_empty());
    let mut bad = tool("w", "W", None, 0);
    bad.target = "ftp://x".into();
    let st = tool_status_with(&bad, &cfg, false, false);
    assert!(!st.ok && st.missing.starts_with("URL 必须以"));
    let all = tools_status(&cfg);
    assert_eq!(all.len(), 3);
    assert_eq!(all[2].0, "b");
    assert!(all[2].1.ok);
}

#[test]
fn version_output_is_interpreted() {
    assert_eq!(version_outcome("  \n", " java 17 \n", true, Some(0)).unwrap(), "java 17");
    assert_eq!(version_outcome("Python 3.12\n", "warn", true, Some(0)).unwrap(), "Python 3.12");
    assert_eq!(version_outcome("", "", false, Some(-1)).unwrap_err(), "执行失败（退出码 Some(-1)）");
    assert_eq!(version_outcome("", "", false, None).unwrap_err(), "执行失败（退出码 None）");
    assert_eq!(version_outcome("", "boom", false, Some(2)).unwrap_err(), "boom");
    assert_eq!(probe_name(EnvKind::Java, "openjdk version \"21\"").unwrap().name, "JDK 21");
    assert_eq!(
        probe_name(EnvKind::Java, "garbage").unwrap_err(),
        "无法从版本信息中识别环境名称：garbage"
    );
    let e = secaxis::model::Env { id: "".into(), kind: EnvKind::Java, name: "".into(), path: "C:\\jdk".into() };
    assert_eq!(version_command(&e).unwrap(), ("C:\\jdk\\bin\\java.exe".to_string(), "-version".to_string()));
    let p = secaxis::model::Env { kind: EnvKind::Python, ..e.clone() };
    assert_eq!(version_command(&p).unwrap(), ("C:\\jdk\\python.exe".to_string(), "--version".to_string()));
    let u = secaxis::model::Env { kind: EnvKind::Unknown, ..e };
    assert_eq!(version_command(&u).unwrap_err(), "未知的环境类型（可能由更高版本创建）");
}
