use secaxis::load::{settle_load, MainFile};
use secaxis::model::{Config, Env, EnvKind, Group, Settings, Tool, ToolKind};
use secaxis::paths::{backup_path, choose_data_dir, config_path, portable_data_dir, file_ext, icons_dir, join_path, path_file_name, path_parent, tmp_path, window_path};

fn env(id: &str, kind: EnvKind, name: &str, path: &str) -> Env {
    Env { id: id.into(), kind, name: name.into(), path: path.into() }
}

fn group(id: &str, name: &str) -> Group {
    Group { id: id.into(), name: name.into() }
}

fn tool(id: &str, name: &str, kind: ToolKind, target: &str, env_id: Option<&str>, group_id: Option<&str>) -> Tool {
    Tool {
        id: id.into(),
        name: name.into(),
        tool_type: kind,
        target: target.into(),
        args: String::new(),
        env_id: env_id.map(|s| s.to_string()),
        group_id: group_id.map(|s| s.to_string()),
        icon: None,
        description: String::new(),
        sort: 0,
    }
}

#[test]
fn valid_settings_are_kept() {
    let mut s = Settings { theme: "dark".into(), close_action: "tray".into() };
    s.sanitize();
    assert_eq!(s.theme, "dark");
    assert_eq!(s.close_action, "tray");
}

#[test]
fn unknown_settings_fall_back_to_defaults() {
    let mut s = Settings { theme: "rainbow".into(), close_action: "explode".into() };
    s.sanitize();
    assert_eq!(s.theme, "light");
    assert_eq!(s.close_action, "exit");
    assert!(!s.closes_to_tray());
    let t = Settings { theme: "light".into(), close_action: "tray".into() };
    assert!(t.closes_to_tray());
}

#[test]
fn default_config_is_empty_version_one() {
    let c = Config::default();
    assert_eq!(c.version, 1);
    assert_eq!(c.settings.theme, "light");
    assert_eq!(c.settings.close_action, "exit");
    assert!(c.envs.is_empty() && c.groups.is_empty() && c.tools.is_empty());
}

#[test]
fn normalize_drops_dangling_refs_and_duplicates() {
    let mut cfg = Config::default();
    cfg.envs = vec![
        env("e1", EnvKind::Java, "JDK17", "C:\\jdk"),
        env("e1", EnvKind::Java, "重复", "C:\\x"),
    ];
    cfg.groups = vec![group("g1", "G")];
    cfg.tools = vec![
        tool("t1", "A", ToolKind::GuiJava, "C:\\a.jar", Some("e1"), Some("g1")),
        tool("t2", "B", ToolKind::TerminalJava, "C:\\b.jar", Some("missing"), Some("nope")),
        tool("t1", "重复 id", ToolKind::Web, "https://x", None, None),
    ];

    let notes = cfg.normalize();

    assert_eq!(cfg.envs.len(), 1, "重复 id 的环境应被去掉");
    assert_eq!(cfg.tools.len(), 2, "重复 id 的工具应被去掉");
    assert_eq!(cfg.tools[0].env_id.as_deref(), Some("e1"));
    assert_eq!(cfg.tools[0].group_id.as_deref(), Some("g1"));
    assert_eq!(cfg.tools[1].env_id, None);
    assert_eq!(cfg.tools[1].group_id, None);
    assert!(notes.iter().any(|n| n.contains("运行环境不存在")), "应提示环境引用被修正: {notes:?}");
    assert!(notes.iter().any(|n| n.contains("分组不存在")), "应提示分组引用被修正: {notes:?}");
}

#[test]
fn normalize_is_silent_for_healthy_config() {
    let mut cfg = Config::default();
    cfg.envs = vec![env("e1", EnvKind::Python, "Py", "C:\\py")];
    cfg.groups = vec![group("g1", "G")];
    cfg.tools = vec![tool("t1", "A", ToolKind::TerminalPython, "C:\\a.py", Some("e1"), Some("g1"))];
    assert!(cfg.normalize().is_empty(), "合法配置不应产生任何修正说明");
    assert_eq!(cfg.tools[0].env_id.as_deref(), Some("e1"));
}

#[test]
fn normalize_notes_count_each_correction() {
    let mut cfg = Config::default();
    cfg.envs = vec![env("", EnvKind::Java, "no id", "C:\\a"), env("e", EnvKind::Java, "E", "C:\\e"), env("e", EnvKind::Java, "E2", "C:\\e")];
    cfg.groups = vec![group("g", "G"), group("", "empty")];
    cfg.tools = vec![
        tool("a", "A", ToolKind::GuiExe, "C:\\a.exe", Some(""), Some("x")),
        tool("b", "B", ToolKind::GuiExe, "C:\\b.exe", Some("zz"), Some("g")),
        tool("", "C", ToolKind::GuiExe, "C:\\c.exe", None, None),
    ];
    let notes = cfg.normalize();
    assert_eq!(
        notes,
        vec![
            "已忽略 2 个 id 重复或为空的运行环境",
            "已忽略 1 个 id 重复或为空的分组",
            "已忽略 1 个 id 重复或为空的工具",
            "2 个工具绑定的运行环境不存在，已清除绑定（这些工具需重新选择环境）",
            "1 个工具所属的分组不存在，已移入「未分组」",
        ]
    );
    assert_eq!(cfg.envs[0].name, "E");
    assert_eq!(cfg.tools[1].group_id.as_deref(), Some("g"));
    // normalising again changes nothing and reports nothing
    assert!(cfg.normalize().is_empty());
    assert_eq!(cfg.tools.len(), 2);
}

#[test]
fn prepare_imported_refuses_unsafe_env_paths() {
    let mut cfg = Config::default();
    cfg.settings.theme = "neon".into();
    cfg.envs = vec![env("bad", EnvKind::Java, "坏", "C:\\\"x"), env("ok", EnvKind::Java, "好", "C:\\jdk")];
    cfg.tools = vec![
        tool("t1", "A", ToolKind::GuiJava, "C:\\a.jar", Some("bad"), None),
        tool("t2", "B", ToolKind::GuiJava, "C:\\b.jar", Some("ok"), None),
    ];
    let warnings = cfg.prepare_imported();
    assert_eq!(cfg.settings.theme, "light");
    assert_eq!(cfg.envs.len(), 1);
    assert_eq!(cfg.envs[0].id, "ok");
    assert_eq!(cfg.tools[0].env_id, None);
    assert_eq!(cfg.tools[1].env_id.as_deref(), Some("ok"));
    assert_eq!(
        warnings,
        vec!["已拒绝 1 个路径不合法的运行环境（会破坏终端命令行）：环境「坏」的路径含引号 '\"'，会让终端命令的引号提前闭合，已拒绝执行：C:\\\"x"]
    );
}

#[test]
fn data_files_live_in_the_data_directory() {
    assert_eq!(config_path("C:\\data"), "C:\\data\\config.json");
    assert_eq!(backup_path("C:\\data\\"), "C:\\data\\config.json.bak");
    assert_eq!(window_path("D:"), "D:window.json");
    assert_eq!(icons_dir(""), "icons");
    assert_eq!(tmp_path("C:\\data\\config.json"), "C:\\data\\config.json.tmp");
    assert_eq!(tmp_path("config.json"), "config.json.tmp");
    assert_eq!(join_path("C:\\a/", "b"), "C:\\a/b");
    assert_eq!(join_path("C:\\a", "D:b"), "D:b");
    assert_eq!(join_path("C:\\a", "\\b"), "C:\\b");
    assert_eq!(join_path(r"\\srv\share\a", "/b"), r"\\srv\share/b");
    assert_eq!(join_path("a", "\\b"), "\\b");
}

#[test]
fn windows_path_parts() {
    assert_eq!(path_file_name("C:\\x\\a.EXE").as_deref(), Some("a.EXE"));
    assert_eq!(path_file_name("C:\\x\\..").as_deref(), None);
    assert_eq!(path_file_name("C:\\").as_deref(), None);
    assert_eq!(path_file_name("foo.txt/.").as_deref(), Some("foo.txt"));
    assert_eq!(path_parent("C:\\app.exe").as_deref(), Some("C:\\"));
    assert_eq!(path_parent("C:a.exe").as_deref(), Some("C:"));
    assert_eq!(path_parent("a.exe").as_deref(), Some(""));
    assert_eq!(path_parent("C:\\").as_deref(), None);
    assert_eq!(file_ext("C:\\x\\a.EXE"), "exe");
    assert_eq!(file_ext("C:\\x\\.bashrc"), "");
    assert_eq!(file_ext("C:\\x.d\\tool"), "");
    assert_eq!(file_ext("archive.tar.GZ"), "gz");
}

#[test]
fn unc_paths_keep_their_share_root() {
    assert_eq!(path_parent(r"\\server\share\dir").as_deref(), Some(r"\\server\share\"));
    assert_eq!(path_parent(r"\\server\share\dir\tool.exe").as_deref(), Some(r"\\server\share\dir"));
    assert_eq!(path_parent(r"\\server\share").as_deref(), None);
    assert_eq!(path_parent(r"\\server\share\").as_deref(), None);
    assert_eq!(path_file_name(r"\\server\share").as_deref(), None);
    assert_eq!(path_file_name(r"\\server\share\a.exe").as_deref(), Some("a.exe"));
    assert_eq!(path_parent("//server/share/x").as_deref(), Some("//server/share/"));
}

#[test]
fn data_directory_is_portable_when_writable() {
    assert_eq!(portable_data_dir(r"C:\SecAxis"), r"C:\SecAxis\data");
    assert_eq!(
        choose_data_dir(Some(r"C:\SecAxis"), true, Some(r"C:\Users\u\AppData\Roaming"), r"C:\Temp"),
        r"C:\SecAxis\data"
    );
    assert_eq!(
        choose_data_dir(Some(r"C:\Program Files\SecAxis"), false, Some(r"C:\Users\u\AppData\Roaming"), r"C:\Temp"),
        r"C:\Users\u\AppData\Roaming\SecAxis\data"
    );
    assert_eq!(choose_data_dir(None, true, None, r"C:\Temp\"), r"C:\Temp\SecAxis\data");
}

fn odd_settings_config() -> Config {
    let mut c = Config::default();
    c.settings.theme = "neon".into();
    c.settings.close_action = "tray".into();
    c.groups.push(group("g", "G"));
    c
}

#[test]
fn start_up_uses_a_parsed_file_with_sanitized_settings() {
    let d = settle_load(MainFile::Parsed(odd_settings_config()), None);
    assert_eq!(d.config.settings.theme, "light");
    assert_eq!(d.config.settings.close_action, "tray");
    assert_eq!(d.config.groups.len(), 1);
    assert!(!d.set_aside && !d.write_back && !d.log_error);
}

#[test]
fn start_up_without_a_file_is_quietly_default() {
    let d = settle_load(MainFile::Missing, Some(odd_settings_config()));
    assert!(d.config.groups.is_empty());
    assert!(!d.set_aside && !d.write_back && !d.log_error);
    let d = settle_load(MainFile::Unreadable, None);
    assert!(d.config.groups.is_empty());
    assert!(!d.set_aside && !d.write_back && d.log_error);
}

#[test]
fn corrupt_file_is_replaced_by_the_backup_or_the_default() {
    let d = settle_load(MainFile::Corrupt, Some(odd_settings_config()));
    assert_eq!(d.config.groups.len(), 1);
    assert_eq!(d.config.settings.theme, "light");
    assert!(d.set_aside && d.write_back && d.log_error);
    let d = settle_load(MainFile::Corrupt, None);
    assert!(d.config.groups.is_empty());
    assert_eq!(d.config.version, 1);
    assert!(d.set_aside && !d.write_back && d.log_error);
}
