use secaxis::args::{join_windows_args, quote_arg, quote_windows_arg, quote_windows_arg_forced, split_args, split_java_args};
use secaxis::launcher::{
    check_cmd_args, check_env_path, check_tool, check_tool_with, command_arguments, plan_launch_with,
    elevation_error, terminal_cmd_line, workdir_of, LaunchPlan,
};
use secaxis::model::{Config, Env, EnvKind, Tool, ToolKind};
use secaxis::probe::suggest_env_name;

fn tool(kind: ToolKind, target: &str) -> Tool {
    Tool {
        id: "t1".into(),
        name: "测试工具".into(),
        tool_type: kind,
        target: target.into(),
        args: String::new(),
        env_id: None,
        group_id: None,
        icon: None,
        description: String::new(),
        sort: 0,
    }
}

fn check(t: &Tool, cfg: &Config) -> Result<(), String> {
    check_tool(t, cfg)
}

#[test]
fn split_args_handles_quotes_and_spaces() {
    assert!(split_args("").is_empty());
    assert_eq!(split_args("-v"), vec!["-v"]);
    assert_eq!(split_args("  a   b  "), vec!["a", "b"]);
    assert_eq!(
        split_args("\"C:\\Program Files\\x.exe\" -v"),
        vec!["C:\\Program Files\\x.exe", "-v"]
    );
    assert_eq!(split_args("--opt=\"a b\""), vec!["--opt=a b"]);
}

#[test]
fn java_args_split_jvm_before_program_args() {
    let (jvm, rest) = split_java_args("-Xmx512m -Dfoo=bar -jar app.jar --port 8080");
    assert_eq!(jvm, vec!["-Xmx512m", "-Dfoo=bar"]);
    assert_eq!(rest, vec!["--port", "8080"]);
}

#[test]
fn java_args_do_not_swallow_program_args() {
    let (jvm, rest) = split_java_args("-Xmx512m --port 8080");
    assert_eq!(jvm, vec!["-Xmx512m"]);
    assert_eq!(rest, vec!["--port", "8080"]);
}

#[test]
fn java_args_stop_jvm_at_first_plain_token() {
    let (jvm, rest) = split_java_args("app.jar -Xmx512m");
    assert!(jvm.is_empty());
    assert_eq!(rest, vec!["app.jar", "-Xmx512m"]);
}

#[test]
fn target_extension_must_match_tool_type() {
    let cfg = Config::default();
    assert!(check(&tool(ToolKind::GuiExe, "C:\\x\\a.py"), &cfg)
        .unwrap_err()
        .contains("需要 .exe"));
    assert!(check(&tool(ToolKind::TerminalPython, "C:\\x\\a.txt"), &cfg)
        .unwrap_err()
        .contains("需要 .py"));
    assert!(check(&tool(ToolKind::TerminalJava, "C:\\x\\a.exe"), &cfg)
        .unwrap_err()
        .contains("需要 .jar"));
    assert!(check(&tool(ToolKind::TerminalExe, "C:\\x\\a.EXE"), &cfg)
        .unwrap_err()
        .contains("EXE 不存在"));
    assert!(check(&tool(ToolKind::TerminalExe, "C:\\x\\tool"), &cfg)
        .unwrap_err()
        .contains("无扩展名"));
}

#[test]
fn web_url_must_be_http_or_https() {
    let cfg = Config::default();
    assert!(check(&tool(ToolKind::Web, "file:///C:/Windows/System32/calc.exe"), &cfg)
        .unwrap_err()
        .contains("http:// 或 https://"));
    assert!(check(&tool(ToolKind::Web, "https://example.com"), &cfg).is_ok());
    assert!(check(&tool(ToolKind::Web, "HTTP://EXAMPLE.COM"), &cfg).is_ok());
}

#[test]
fn workdir_is_always_the_target_directory() {
    let t = tool(ToolKind::TerminalExe, "C:\\tools\\app.exe");
    assert_eq!(workdir_of(&t, "D:\\cwd"), "C:\\tools");
    let t = tool(ToolKind::TerminalPython, "D:\\work\\scan.py");
    assert_eq!(workdir_of(&t, "D:\\cwd"), "D:\\work");
    let t = tool(ToolKind::TerminalExe, r"\\server\share\app.exe");
    assert_eq!(workdir_of(&t, "D:\\cwd"), r"\\server\share\");
}

#[test]
fn unknown_tool_kind_is_rejected_instead_of_panicking() {
    let t = tool(ToolKind::Unknown, "C:\\x.exe");
    let cfg = Config::default();
    assert!(check(&t, &cfg).is_err());
}

#[test]
fn suggest_env_name_parses_version_output() {
    let jdk17 = "openjdk version \"17.0.9\" 2023-10-17\nOpenJDK Runtime Environment Temurin-17.0.9+9 (build 17.0.9+9)";
    assert_eq!(suggest_env_name(EnvKind::Java, jdk17).as_deref(), Some("JDK 17.0.9"));

    let jdk8 = "java version \"1.8.0_401\"\nJava(TM) SE Runtime Environment (build 1.8.0_401-b10)";
    assert_eq!(suggest_env_name(EnvKind::Java, jdk8).as_deref(), Some("JDK 1.8.0_401"));

    let jdk11 = "openjdk version \"11.0.21\" 2023-10-17 LTS";
    assert_eq!(suggest_env_name(EnvKind::Java, jdk11).as_deref(), Some("JDK 11.0.21"));

    assert_eq!(
        suggest_env_name(EnvKind::Python, "Python 3.12.4").as_deref(),
        Some("Python 3.12.4")
    );

    assert_eq!(suggest_env_name(EnvKind::Java, "not a jdk"), None);
    assert_eq!(suggest_env_name(EnvKind::Java, ""), None);
    assert_eq!(suggest_env_name(EnvKind::Unknown, "whatever"), None);
}

#[test]
fn command_arguments_keep_shell_metacharacters_as_data() {
    let mut t = tool(ToolKind::TerminalExe, r"C:\tools\nmap.exe");
    t.args = r"-sV & calc.exe".into();
    let args = command_arguments(&t);
    assert_eq!(args, vec!["-sV", "&", "calc.exe"], "参数只应按空白切分: {args:?}");
}

#[test]
fn terminal_exe_does_not_pass_target_twice() {
    let mut t = tool(ToolKind::TerminalExe, r"C:\tools\nmap.exe");
    t.args = "-sV".into();
    assert_eq!(command_arguments(&t), vec!["-sV"]);
    let line = terminal_cmd_line(r"C:\tools\nmap.exe", &command_arguments(&t), None, r"C:\tools");
    assert_eq!(
        line,
        r#"cd /d "C:\tools" && "C:\tools\nmap.exe" "-sV""#,
        "命令行里 nmap.exe 只应出现一次"
    );
}

#[test]
fn terminal_cmd_line_wraps_every_token_in_quotes() {
    let args: Vec<String> = vec!["-sV".into(), "&".into(), "calc.exe".into()];
    let line = terminal_cmd_line(r"C:\Program Files\Tools\nmap.exe", &args, None, r"C:\tools");
    assert_eq!(
        line,
        r#"cd /d "C:\tools" && "C:\Program Files\Tools\nmap.exe" "-sV" "&" "calc.exe""#
    );
    let tail = line.split_once("&& ").unwrap().1;
    assert_eq!(tail, r#""C:\Program Files\Tools\nmap.exe" "-sV" "&" "calc.exe""#);
    assert_eq!(tail.matches('"').count(), 8, "四个 token 各一对引号: {tail}");
    assert!(tail.contains("\"&\""), "与号必须在引号内: {tail}");
}

#[test]
fn terminal_cmd_line_keeps_path_injection_and_workdir() {
    let args = command_arguments(&{
        let mut t = tool(ToolKind::TerminalJava, r"C:\tools\app.jar");
        t.args = "--port 8080".into();
        t
    });
    let line = terminal_cmd_line(r"C:\jdk\bin\java.exe", &args, Some(r"C:\jdk\bin"), r"C:\tools");
    assert_eq!(
        line,
        r#"set "PATH=C:\jdk\bin;%PATH%" && cd /d "C:\tools" && "C:\jdk\bin\java.exe" "-jar" "C:\tools\app.jar" "--port" "8080""#
    );
}

#[test]
fn command_arguments_preserve_spaced_option_values() {
    let mut t = tool(ToolKind::TerminalExe, r"C:\tools\t.exe");
    t.args = "--opt=\"a b\" \"c\\d e\"".into();
    let args = command_arguments(&t);
    assert_eq!(args, vec!["--opt=a b", r"c\d e"]);
}

#[test]
fn command_arguments_build_java_jar_argv() {
    let mut t = tool(ToolKind::TerminalJava, r"C:\app.jar");
    t.args = "-Xmx512m -jar other.jar --port 8080".into();
    assert_eq!(
        command_arguments(&t),
        vec!["-Xmx512m", "-jar", r"C:\app.jar", "--port", "8080"]
    );

    let mut g = tool(ToolKind::GuiJava, r"C:\app.jar");
    g.args = "-Xmx512m -jar other.jar --port 8080".into();
    let (jvm, rest) = split_java_args(&g.args);
    let mut gui = jvm;
    gui.push("-jar".into());
    gui.push(g.target.clone());
    gui.extend(rest);
    assert_eq!(gui, command_arguments(&t), "终端与 GUI 的 Java 参数顺序要一致");
}

#[test]
fn quote_windows_arg_matches_argv_rules() {
    assert_eq!(quote_windows_arg("plain"), "plain");
    assert_eq!(quote_windows_arg(""), "\"\"");
    assert_eq!(quote_windows_arg("a b"), "\"a b\"");
    assert_eq!(quote_windows_arg("say \"hi\""), "\"say \\\"hi\\\"\"");
    assert_eq!(quote_windows_arg("a b\\"), "\"a b\\\\\"");
}

#[test]
fn quote_windows_arg_forced_always_quotes() {
    assert_eq!(quote_windows_arg_forced("plain"), "\"plain\"");
    assert_eq!(quote_windows_arg_forced("&"), "\"&\"");
    assert_eq!(quote_windows_arg_forced(""), "\"\"");
    assert_eq!(quote_windows_arg_forced("a b\\"), "\"a b\\\\\"");
}

#[test]
fn check_cmd_args_rejects_what_quoting_cannot_express() {
    let ok = |s: &[&str]| -> bool {
        check_cmd_args("启动参数", &s.iter().map(|x| x.to_string()).collect::<Vec<_>>()).is_ok()
    };
    assert!(ok(&["-sV", "--opt=a b", "https://x?a=1&b=2", "--name=O'Brien"]));
    assert!(!ok(&["%PATH%"]), "% 会被 cmd 展开后再解析一次");
    assert!(!ok(&["a\nb"]), "换行是语句分隔符");
    assert!(!ok(&["say \"hi\""]), "内层双引号会破坏参数边界");
}

#[test]
fn check_tool_rejects_unbalanced_quotes_in_args() {
    let cfg = Config::default();
    let mut t = tool(ToolKind::GuiExe, "C:\\x\\a.exe");
    t.args = "--msg=\"unclosed".into();
    assert!(check(&t, &cfg).unwrap_err().contains("双引号没有配对"));
    t.args = "--msg=\"ok\"".into();
    assert!(!check(&t, &cfg).unwrap_err().contains("双引号"));
}

#[test]
fn env_path_rejects_quotes_line_breaks_and_percent() {
    assert!(check_env_path("环境路径", r"C:\jdk").is_ok());
    assert!(check_env_path("环境路径", "").is_err());
    assert!(check_env_path("环境路径", "C:\\a\\\"b").is_err());
    assert!(check_env_path("环境路径", "C:\\a'b").is_err());
    assert!(check_env_path("环境路径", "C:\\a\nb").is_err(), "换行必须被拒绝");
    assert!(
        check_env_path("环境路径", "C:\\%JDK_HOME%\\bin").is_err(),
        "% 会被 cmd 展开，必须被拒绝"
    );
}

#[test]
fn unbound_env_is_rejected() {
    let cfg = Config::default();
    let target = "C:\\work\\app.jar";

    let t = tool(ToolKind::GuiJava, target);
    let err = check_tool_with(&t, &cfg, true, false).unwrap_err();
    assert!(err.contains("未绑定"), "未绑定环境必须被拒绝: {err}");

    let mut cfg2 = cfg.clone();
    cfg2.envs.push(Env {
        id: "e1".into(),
        kind: EnvKind::Java,
        name: "JDK".into(),
        path: r"C:\definitely-not-a-jdk".into(),
    });
    let mut t2 = tool(ToolKind::GuiJava, target);
    t2.env_id = Some("e1".into());
    let err = check_tool_with(&t2, &cfg2, true, false).unwrap_err();
    assert!(!err.contains("未绑定"), "{err}");
    assert!(err.contains("Java 不存在"), "{err}");
}

// ---- further cases ----

#[test]
fn check_env_path_messages_name_the_character() {
    assert_eq!(
        check_env_path("X", "a'b").unwrap_err(),
        "X含引号 '\\''，会让终端命令的引号提前闭合，已拒绝执行：a'b"
    );
    assert_eq!(
        check_env_path("X", "a\"b").unwrap_err(),
        "X含引号 '\"'，会让终端命令的引号提前闭合，已拒绝执行：a\"b"
    );
    assert_eq!(check_env_path("X", "a\rb").unwrap_err(), "X含换行（13），无法安全传给终端，已拒绝执行");
    assert_eq!(check_env_path("X", "  ").unwrap_err(), "X为空");
    assert_eq!(
        check_env_path("X", "a%b").unwrap_err(),
        "X含 %，终端会把它当作变量展开后再解析一次，已拒绝执行：a%b"
    );
}

#[test]
fn check_cmd_args_reports_the_first_bad_argument() {
    let args: Vec<String> = vec!["ok".into(), "a\nb".into(), "%X%".into()];
    assert_eq!(check_cmd_args("P", &args).unwrap_err(), "P含换行（10），会被终端当成语句分隔符");
    let args: Vec<String> = vec!["say \"hi\"".into()];
    assert_eq!(check_cmd_args("P", &args).unwrap_err(), "P含双引号，无法安全交给终端：say \"hi\"");
}

#[test]
fn check_tool_with_passes_a_complete_python_tool() {
    let mut cfg = Config::default();
    cfg.envs.push(Env { id: "py".into(), kind: EnvKind::Python, name: "Py".into(), path: r"C:\py".into() });
    let mut t = tool(ToolKind::TerminalPython, r"C:\s\scan.py");
    t.env_id = Some("py".into());
    assert!(check_tool_with(&t, &cfg, true, true).is_ok());
    assert_eq!(check_tool_with(&t, &cfg, false, true).unwrap_err(), r"脚本不存在: C:\s\scan.py");
    assert_eq!(
        check_tool_with(&t, &cfg, true, false).unwrap_err(),
        r"Python 不存在: C:\py\python.exe（环境「Py」）"
    );
    cfg.envs[0].kind = EnvKind::Java;
    assert_eq!(check_tool_with(&t, &cfg, true, true).unwrap_err(), "环境「Py」不是 Python 环境");
}

#[test]
fn check_tool_refuses_bad_env_paths_and_terminal_args() {
    let mut cfg = Config::default();
    cfg.envs.push(Env { id: "j".into(), kind: EnvKind::Java, name: "J".into(), path: "C:\\%J%".into() });
    let mut t = tool(ToolKind::GuiJava, r"C:\a.jar");
    t.env_id = Some("j".into());
    assert_eq!(
        check_tool_with(&t, &cfg, true, true).unwrap_err(),
        "环境「J」的路径含 %，终端会把它当作变量展开后再解析一次，已拒绝执行：C:\\%J%"
    );
    let mut e = tool(ToolKind::TerminalExe, r"C:\a.exe");
    e.args = "%PATH%".into();
    assert!(check_tool_with(&e, &Config::default(), true, true).unwrap_err().starts_with("启动参数含 %"));
    let web = tool(ToolKind::Web, "  ");
    assert_eq!(check_tool_with(&web, &Config::default(), true, true).unwrap_err(), "未配置 URL");
}

#[test]
fn plan_launch_covers_every_kind() {
    let mut cfg = Config::default();
    cfg.envs.push(Env { id: "j".into(), kind: EnvKind::Java, name: "J".into(), path: r"C:\jdk".into() });

    let mut g = tool(ToolKind::GuiJava, r"C:\apps\app.jar");
    g.env_id = Some("j".into());
    g.args = "-Xmx1g --port 1".into();
    match plan_launch_with(&g, &cfg, false, r"D:\", true, true).unwrap() {
        LaunchPlan::Program { program, args, workdir } => {
            assert_eq!(program, r"C:\jdk\bin\javaw.exe");
            assert_eq!(args, vec!["-Xmx1g", "-jar", r"C:\apps\app.jar", "--port", "1"]);
            assert_eq!(workdir, r"C:\apps");
        }
        other => panic!("unexpected plan {other:?}"),
    }
    assert_eq!(
        plan_launch_with(&g, &cfg, true, r"D:\", true, true).unwrap_err(),
        "只有「GUI exe」类型支持以管理员身份运行"
    );

    let mut x = tool(ToolKind::GuiExe, r"C:\apps\x.exe");
    x.args = "\"a b\" c".into();
    match plan_launch_with(&x, &cfg, true, r"D:\", true, true).unwrap() {
        LaunchPlan::Elevated { program, params, workdir } => {
            assert_eq!(program, r"C:\apps\x.exe");
            assert_eq!(params, "\"a b\" c");
            assert_eq!(workdir, r"C:\apps");
        }
        other => panic!("unexpected plan {other:?}"),
    }

    let mut tj = tool(ToolKind::TerminalJava, r"C:\apps\app.jar");
    tj.env_id = Some("j".into());
    match plan_launch_with(&tj, &cfg, false, r"D:\", true, true).unwrap() {
        LaunchPlan::Terminal { command_text } => assert_eq!(
            command_text,
            r#"/K set "PATH=C:\jdk\bin;%PATH%" && cd /d "C:\apps" && "C:\jdk\bin\java.exe" "-jar" "C:\apps\app.jar""#
        ),
        other => panic!("unexpected plan {other:?}"),
    }

    let bare = tool(ToolKind::TerminalExe, "a.exe");
    match plan_launch_with(&bare, &cfg, false, r"D:\cwd", true, true).unwrap() {
        LaunchPlan::Terminal { command_text } => {
            assert_eq!(command_text, r#"/K cd /d "D:\cwd" && "a.exe""#)
        }
        other => panic!("unexpected plan {other:?}"),
    }

    let web = tool(ToolKind::Web, "https://x.org");
    match plan_launch_with(&web, &cfg, false, "", false, false).unwrap() {
        LaunchPlan::OpenUrl { url } => assert_eq!(url, "https://x.org"),
        other => panic!("unexpected plan {other:?}"),
    }
}

#[test]
fn join_windows_args_quotes_where_needed() {
    let args: Vec<String> = vec!["a".into(), "b c".into(), "".into(), "d\"e".into()];
    assert_eq!(join_windows_args(&args), "a \"b c\" \"\" \"d\\\"e\"");
}

#[test]
fn quote_doubles_backslashes_before_quotes_only() {
    assert_eq!(quote_windows_arg_forced(r#"a\\"b"#), r#""a\\\\\"b""#);
    assert_eq!(quote_windows_arg_forced(r"a\b"), r#""a\b""#);
}

#[test]
fn split_without_quotes_cuts_at_blanks_only() {
    assert_eq!(split_args("a\\b  c&d\t|e%f "), vec!["a\\b", "c&d", "|e%f"]);
    assert_eq!(split_args(""), Vec::<String>::new());
    for t in split_args(r#"x "y z" "" w"q"#) {
        assert!(!t.contains('"'));
    }
}

#[test]
fn joined_arguments_split_back() {
    let args: Vec<String> = vec!["plain".into(), "with space".into(), "".into(), "tab\there".into(), r"C:\dir\".into(), "a&b|c".into()];
    assert_eq!(split_args(&join_windows_args(&args)), args);
}

#[test]
fn java_args_drop_every_jar_pair() {
    let (jvm, rest) = split_java_args("-Xmx1g -Dk=v run -jar a.jar -Xss1m -jar");
    assert_eq!(jvm, vec!["-Xmx1g", "-Dk=v"]);
    assert_eq!(rest, vec!["run", "-Xss1m"]);
}

#[test]
fn refused_elevation_has_its_own_message() {
    assert_eq!(elevation_error(Some(1223), "x"), "已取消：用户拒绝了管理员授权");
    assert_eq!(elevation_error(Some(5), "拒绝访问。"), "管理员启动失败: 拒绝访问。");
    assert_eq!(elevation_error(None, "e"), "管理员启动失败: e");
}

#[test]
fn quote_arg_forces_only_what_it_would_quote_anyway() {
    assert_eq!(quote_arg("plain", false), "plain");
    assert_eq!(quote_arg("plain", true), "\"plain\"");
    assert_eq!(quote_arg(r#"a "b"\"#, false), r#""a \"b\"\\""#);
    assert_eq!(quote_arg(r#"a "b"\"#, true), quote_arg(r#"a "b"\"#, false));
}
