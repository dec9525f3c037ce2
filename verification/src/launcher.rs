//! Pre-launch checks of a tool card and the command lines that launch it.

use vstd::prelude::*;
use crate::model::{Config, Env, EnvKind, Tool, ToolKind};
use crate::text::{
    blank, chars_of, count_char, decimal, decimal_string, first_in, first_of_two, has_char,
    is_blank, outcome, owned, quote_debug, quote_debug_string, trim, has_prefix, ascii_lower,
    trim_chars, string_of, str_eq, count_of, lower_chars, chars_start_with_str,
};
use crate::args::{
    java_split, joined_tokens, join_windows_args, quote_token, quote_windows_arg_forced, split_args,
    split_java_args, split_words, views,
};
use crate::paths::{join, join_path, file_ext, lower_extension, parent, path_parent};

verus! {

/// The first environment whose id is `id`.
pub open spec fn find_env(envs: Seq<Env>, id: Seq<char>) -> Option<Env>
    decreases envs.len(),
{
    if envs.len() == 0 {
        None
    } else if envs[0].id@ == id {
        Some(envs[0])
    } else {
        find_env(envs.drop_first(), id)
    }
}

/// The environment a tool is bound to: the first one with the tool's `env_id`.
pub open spec fn bound_env_of(tool: Tool, config: Config) -> Option<Env> {
    match tool.env_id {
        Some(id) => find_env(config.envs@, id@),
        None => None,
    }
}

/// The environment a tool is bound to (see `bound_env_of`).
pub fn bound_env<'a>(tool: &Tool, config: &'a Config) -> (r: Option<&'a Env>)
    ensures
        match r {
            Some(e) => bound_env_of(*tool, *config) == Some(*e),
            None => bound_env_of(*tool, *config) is None,
        },
{
    let id = match &tool.env_id {
        Some(id) => id,
        None => return None,
    };
    let envs = &config.envs;
    let ghost all = envs@;
    assert(bound_env_of(*tool, *config) == find_env(all, id@));
    let mut i: usize = 0;
    assert(all.skip(0) == all);
    while i < envs.len()
        invariant
            i <= envs.len(),
            all == envs@,
            find_env(all.skip(i as int), id@) == find_env(all, id@),
            bound_env_of(*tool, *config) == find_env(all, id@),
        decreases envs.len() - i,
    {
        assert(all.skip(i as int)[0] == all[i as int]);
        assert(all.skip(i as int).len() > 0);
        if envs[i].id == *id {
            assert(find_env(all.skip(i as int), id@) == Some(all[i as int]));
            let e = &envs[i];
            assert(*e == all[i as int]);
            return Some(e);
        }
        assert(all.skip(i as int).drop_first() == all.skip(i + 1));
        i += 1;
    }
    None
}

/// Why a path field that goes into the command interpreter's line is refused: empty,
/// holding a quote (which would close the line's quotes early), a line break (a
/// statement separator) or `%` (expanded as a variable before the line is parsed).
pub open spec fn path_issue(what: Seq<char>, value: Seq<char>) -> Option<Seq<char>> {
    if is_blank(value) {
        Some(what + "为空"@)
    } else {
        match first_in(value, seq!['"', '\'']) {
            Some(c) => Some(what + "含引号 "@ + quote_debug(c)
                + "，会让终端命令的引号提前闭合，已拒绝执行："@ + value),
            None => match first_in(value, seq!['\r', '\n']) {
                Some(c) => Some(what + "含换行（"@ + decimal((c as u32) as nat)
                    + "），无法安全传给终端，已拒绝执行"@),
                None => if value.contains('%') {
                    Some(what + "含 %，终端会把它当作变量展开后再解析一次，已拒绝执行："@ + value)
                } else {
                    None
                },
            },
        }
    }
}

/// Checks a path field that goes into the command interpreter's line (see `path_issue`).
pub fn check_env_path(what: &str, value: &str) -> (r: Result<(), String>)
    ensures
        outcome(r) == path_issue(what@, value@),
{
    let v = chars_of(value);
    if blank(v.as_slice()) {
        let mut m = owned(what);
        m.append("为空");
        return Err(m);
    }
    match first_of_two(v.as_slice(), '"', '\'') {
        Some(c) => {
            let mut m = owned(what);
            m.append("含引号 ");
            let d = quote_debug_string(c);
            m.append(d.as_str());
            m.append("，会让终端命令的引号提前闭合，已拒绝执行：");
            m.append(value);
            return Err(m);
        },
        None => {},
    }
    match first_of_two(v.as_slice(), '\r', '\n') {
        Some(c) => {
            let mut m = owned(what);
            m.append("含换行（");
            let n = decimal_string((c as u32) as u64);
            m.append(n.as_str());
            m.append("），无法安全传给终端，已拒绝执行");
            return Err(m);
        },
        None => {},
    }
    if has_char(v.as_slice(), '%') {
        let mut m = owned(what);
        m.append("含 %，终端会把它当作变量展开后再解析一次，已拒绝执行：");
        m.append(value);
        return Err(m);
    }
    Ok(())
}

/// Why one argument cannot be passed through the command interpreter even when quoted:
/// `%`, a double quote, or a line break.
pub open spec fn cmd_arg_issue(what: Seq<char>, a: Seq<char>) -> Option<Seq<char>> {
    if a.contains('%') {
        Some(what + "含 %，终端会把它当作变量展开后再解析一次，请去掉该字符："@ + a)
    } else if a.contains('"') {
        Some(what + "含双引号，无法安全交给终端："@ + a)
    } else {
        match first_in(a, seq!['\r', '\n']) {
            Some(c) => Some(what + "含换行（"@ + decimal((c as u32) as nat) + "），会被终端当成语句分隔符"@),
            None => None,
        }
    }
}

/// The issue of the first argument that has one.
pub open spec fn cmd_args_issue(what: Seq<char>, args: Seq<Seq<char>>) -> Option<Seq<char>>
    decreases args.len(),
{
    if args.len() == 0 {
        None
    } else {
        match cmd_arg_issue(what, args[0]) {
            Some(m) => Some(m),
            None => cmd_args_issue(what, args.drop_first()),
        }
    }
}

/// Checks the arguments of a terminal tool (see `cmd_arg_issue`).
pub fn check_cmd_args(what: &str, args: &[String]) -> (r: Result<(), String>)
    ensures
        outcome(r) == cmd_args_issue(what@, views(args@)),
{
    let ghost all = views(args@);
    let mut i: usize = 0;
    assert(all.skip(0) == all);
    while i < args.len()
        invariant
            i <= args.len(),
            all == views(args@),
            cmd_args_issue(what@, all.skip(i as int)) == cmd_args_issue(what@, all),
        decreases args.len() - i,
    {
        let a = args[i].as_str();
        let v = chars_of(a);
        assert(all.skip(i as int)[0] == a@);
        if has_char(v.as_slice(), '%') {
            let mut m = owned(what);
            m.append("含 %，终端会把它当作变量展开后再解析一次，请去掉该字符：");
            m.append(a);
            return Err(m);
        }
        if has_char(v.as_slice(), '"') {
            let mut m = owned(what);
            m.append("含双引号，无法安全交给终端：");
            m.append(a);
            return Err(m);
        }
        match first_of_two(v.as_slice(), '\r', '\n') {
            Some(c) => {
                let mut m = owned(what);
                m.append("含换行（");
                let n = decimal_string((c as u32) as u64);
                m.append(n.as_str());
                m.append("），会被终端当成语句分隔符");
                return Err(m);
            },
            None => {},
        }
        assert(all.skip(i as int).drop_first() == all.skip(i + 1));
        i += 1;
    }
    Ok(())
}

/// The file extension a tool kind requires, for kinds that launch a file.
pub open spec fn required_extension(kind: ToolKind) -> Option<Seq<char>> {
    match kind {
        ToolKind::TerminalPython => Some("py"@),
        ToolKind::TerminalJava | ToolKind::GuiJava => Some("jar"@),
        ToolKind::TerminalExe | ToolKind::GuiExe => Some("exe"@),
        ToolKind::Web | ToolKind::Unknown => None,
    }
}

/// The file extension a tool kind requires (see `required_extension`).
pub fn required_ext(kind: ToolKind) -> (r: Option<&'static str>)
    ensures
        match r {
            Some(e) => required_extension(kind) == Some(e@),
            None => required_extension(kind) is None,
        },
{
    match kind {
        ToolKind::TerminalPython => Some("py"),
        ToolKind::TerminalJava | ToolKind::GuiJava => Some("jar"),
        ToolKind::TerminalExe | ToolKind::GuiExe => Some("exe"),
        ToolKind::Web | ToolKind::Unknown => None,
    }
}

/// Whether a tool runs in a terminal window, through the command interpreter.
pub open spec fn terminal_kind(kind: ToolKind) -> bool {
    kind == ToolKind::TerminalPython || kind == ToolKind::TerminalJava || kind
        == ToolKind::TerminalExe
}

/// Whether a tool runs in a terminal window (see `terminal_kind`).
pub fn is_terminal(kind: ToolKind) -> (b: bool)
    ensures
        b == terminal_kind(kind),
{
    match kind {
        ToolKind::TerminalPython | ToolKind::TerminalJava | ToolKind::TerminalExe => true,
        _ => false,
    }
}

/// The arguments that follow the program: a Python script first, a Java tool's
/// JVM options, then `-jar` and the JAR, then its program arguments; an EXE tool's
/// own arguments (the EXE itself is the program).
pub open spec fn tool_arguments(tool: Tool) -> Seq<Seq<char>> {
    match tool.tool_type {
        ToolKind::TerminalPython => seq![tool.target@] + split_words(tool.args@),
        ToolKind::TerminalJava => java_split(tool.args@).0 + seq!["-jar"@, tool.target@]
            + java_split(tool.args@).1,
        _ => split_words(tool.args@),
    }
}

/// The arguments that follow the program (see `tool_arguments`).
pub fn command_arguments(tool: &Tool) -> (r: Vec<String>)
    ensures
        views(r@) == tool_arguments(*tool),
{
    match tool.tool_type {
        ToolKind::TerminalPython => {
            let mut out: Vec<String> = Vec::new();
            out.push(tool.target.clone());
            let mut words = split_args(tool.args.as_str());
            out.append(&mut words);
            assert(views(out@) == seq![tool.target@] + split_words(tool.args@));
            out
        },
        ToolKind::TerminalJava => {
            let (mut jvm, mut rest) = split_java_args(tool.args.as_str());
            let mut out: Vec<String> = Vec::new();
            out.append(&mut jvm);
            out.push(owned("-jar"));
            out.push(tool.target.clone());
            out.append(&mut rest);
            assert(views(out@) == java_split(tool.args@).0 + seq!["-jar"@, tool.target@]
                + java_split(tool.args@).1);
            out
        },
        _ => split_args(tool.args.as_str()),
    }
}

/// The directory that holds an environment's executables: `bin` under a JDK root,
/// the directory itself for Python.
pub open spec fn env_bin_dir(env: Env) -> Seq<char> {
    if env.kind == EnvKind::Java {
        join(env.path@, "bin"@)
    } else {
        env.path@
    }
}

/// The directory that holds an environment's executables (see `env_bin_dir`).
pub fn bin_dir(env: &Env) -> (r: String)
    ensures
        r@ == env_bin_dir(*env),
{
    match env.kind {
        EnvKind::Java => join_path(env.path.as_str(), "bin"),
        _ => owned(env.path.as_str()),
    }
}

/// `python.exe` in an environment.
pub fn python_exe(env: &Env) -> (r: String)
    ensures
        r@ == join(env_bin_dir(*env), "python.exe"@),
{
    let d = bin_dir(env);
    join_path(d.as_str(), "python.exe")
}

/// `java.exe` in an environment.
pub fn java_exe(env: &Env) -> (r: String)
    ensures
        r@ == join(env_bin_dir(*env), "java.exe"@),
{
    let d = bin_dir(env);
    join_path(d.as_str(), "java.exe")
}

/// `javaw.exe` in an environment: Java without a console window.
pub fn javaw_exe(env: &Env) -> (r: String)
    ensures
        r@ == join(env_bin_dir(*env), "javaw.exe"@),
{
    let d = bin_dir(env);
    join_path(d.as_str(), "javaw.exe")
}

/// The executable that launches a tool of this kind with this environment: always an
/// absolute path into the environment, never a lookup in the system `PATH`.
pub open spec fn launch_exe_path(kind: ToolKind, env: Env) -> Option<Seq<char>> {
    match kind {
        ToolKind::TerminalPython => Some(join(env_bin_dir(env), "python.exe"@)),
        ToolKind::TerminalJava => Some(join(env_bin_dir(env), "java.exe"@)),
        ToolKind::GuiJava => Some(join(env_bin_dir(env), "javaw.exe"@)),
        _ => None,
    }
}

/// The problem with the launch executable, if any; `exe_is_file` tells whether the
/// path of `launch_exe_path` is an existing file.
pub open spec fn launch_exe_issue(kind: ToolKind, env: Env, exe_is_file: bool) -> Option<Seq<char>> {
    match launch_exe_path(kind, env) {
        Some(p) => if exe_is_file {
            None
        } else if kind == ToolKind::TerminalPython {
            Some("Python 不存在: "@ + p)
        } else {
            Some("Java 不存在: "@ + p)
        },
        None => Some("该工具类型不支持解析启动程序"@),
    }
}

/// The executable that launches a tool (see `launch_exe_path`).
pub fn launch_exe(kind: ToolKind, env: &Env) -> (r: Option<String>)
    ensures
        match r {
            Some(p) => launch_exe_path(kind, *env) == Some(p@),
            None => launch_exe_path(kind, *env) is None,
        },
{
    match kind {
        ToolKind::TerminalPython => Some(python_exe(env)),
        ToolKind::TerminalJava => Some(java_exe(env)),
        ToolKind::GuiJava => Some(javaw_exe(env)),
        _ => None,
    }
}

/// The launch executable and its problem (see `launch_exe_issue`).
fn resolve_launch_exe(kind: ToolKind, env: &Env, exe_is_file: bool) -> (r: (String, Option<String>))
    ensures
        match launch_exe_path(kind, *env) {
            Some(p) => r.0@ == p,
            None => r.0@ == Seq::<char>::empty(),
        },
        match r.1 {
            Some(m) => launch_exe_issue(kind, *env, exe_is_file) == Some(m@),
            None => launch_exe_issue(kind, *env, exe_is_file) is None,
        },
{
    match launch_exe(kind, env) {
        Some(p) => {
            if exe_is_file {
                (p, None)
            } else {
                let mut m = if kind == ToolKind::TerminalPython {
                    owned("Python 不存在: ")
                } else {
                    owned("Java 不存在: ")
                };
                m.append(p.as_str());
                (p, Some(m))
            }
        },
        None => (String::new(), Some(owned("该工具类型不支持解析启动程序"))),
    }
}

/// Why a Java or Python tool has no usable environment: none bound, or one of
/// another kind. Such tools never fall back to the system `PATH`.
pub open spec fn require_env_of(tool: Tool, config: Config, kind: EnvKind, label: Seq<char>) -> Result<Env, Seq<char>> {
    match bound_env_of(tool, config) {
        None => Err("未绑定 "@ + label + " 环境：请先在顶栏添加并选择 "@ + label + " 环境"@),
        Some(env) => if env.kind != kind {
            Err("环境「"@ + env.name@ + "」不是 "@ + label + " 环境"@)
        } else {
            Ok(env)
        },
    }
}

/// The environment of a Java or Python tool (see `require_env_of`).
pub fn require_env<'a>(tool: &Tool, config: &'a Config, kind: EnvKind, label: &str) -> (r: Result<&'a Env, String>)
    ensures
        match r {
            Ok(e) => require_env_of(*tool, *config, kind, label@) == Ok::<Env, Seq<char>>(*e),
            Err(m) => require_env_of(*tool, *config, kind, label@) == Err::<Env, Seq<char>>(m@),
        },
{
    match bound_env(tool, config) {
        None => {
            let mut m = owned("未绑定 ");
            m.append(label);
            m.append(" 环境：请先在顶栏添加并选择 ");
            m.append(label);
            m.append(" 环境");
            Err(m)
        },
        Some(env) => {
            if env.kind != kind {
                let mut m = owned("环境「");
                m.append(env.name.as_str());
                m.append("」不是 ");
                m.append(label);
                m.append(" 环境");
                Err(m)
            } else {
                Ok(env)
            }
        },
    }
}

} // verus!

verus! {

/// Why the target's extension does not fit the tool kind.
pub open spec fn extension_issue(tool: Tool) -> Option<Seq<char>> {
    match required_extension(tool.tool_type) {
        Some(ext) => {
            let target = trim(tool.target@);
            let actual = lower_extension(target);
            if target.len() > 0 && actual != ext {
                let shown = if actual.len() == 0 {
                    "无扩展名"@
                } else {
                    "."@ + actual
                };
                Some("文件类型不符：该类型需要 ."@ + ext + " 文件，当前是"@ + shown)
            } else {
                None
            }
        },
        None => None,
    }
}

/// Why the bound environment's path may not go into a command line.
pub open spec fn bound_path_issue(tool: Tool, config: Config) -> Option<Seq<char>> {
    match bound_env_of(tool, config) {
        Some(e) => path_issue("环境「"@ + e.name@ + "」的路径"@, e.path@),
        None => None,
    }
}

/// Why a file tool cannot start: no target, a target that may not go into a command
/// line, a target that is not a file, no fitting environment, or a missing executable.
pub open spec fn file_tool_issue(
    tool: Tool,
    config: Config,
    target_is_file: bool,
    exe_is_file: bool,
    unset: Seq<char>,
    field: Seq<char>,
    absent: Seq<char>,
    env: Option<(EnvKind, Seq<char>)>,
) -> Option<Seq<char>> {
    if is_blank(tool.target@) {
        Some(unset)
    } else {
        match path_issue(field, tool.target@) {
            Some(m) => Some(m),
            None => if !target_is_file {
                Some(absent + tool.target@)
            } else {
                match env {
                    None => None,
                    Some((k, label)) => match require_env_of(tool, config, k, label) {
                        Err(m) => Some(m),
                        Ok(e) => match launch_exe_issue(tool.tool_type, e, exe_is_file) {
                            Some(i) => Some(i + "（环境「"@ + e.name@ + "」）"@),
                            None => None,
                        },
                    },
                }
            },
        }
    }
}

/// The checks that depend on the tool kind.
pub open spec fn kind_issue(tool: Tool, config: Config, target_is_file: bool, exe_is_file: bool) -> Option<Seq<char>> {
    match tool.tool_type {
        ToolKind::Unknown => Some("未知的工具类型（可能由更高版本创建，当前版本无法启动）"@),
        ToolKind::Web => {
            let url = trim(tool.target@);
            if url.len() == 0 {
                Some("未配置 URL"@)
            } else if !(has_prefix(ascii_lower(url), "http://"@) || has_prefix(
                ascii_lower(url),
                "https://"@,
            )) {
                Some("URL 必须以 http:// 或 https:// 开头: "@ + url)
            } else {
                None
            }
        },
        ToolKind::TerminalPython => file_tool_issue(
            tool,
            config,
            target_is_file,
            exe_is_file,
            "未配置脚本路径"@,
            "脚本路径"@,
            "脚本不存在: "@,
            Some((EnvKind::Python, "Python"@)),
        ),
        ToolKind::TerminalJava | ToolKind::GuiJava => file_tool_issue(
            tool,
            config,
            target_is_file,
            exe_is_file,
            "未配置 JAR 路径"@,
            "JAR 路径"@,
            "JAR 不存在: "@,
            Some((EnvKind::Java, "Java"@)),
        ),
        ToolKind::TerminalExe | ToolKind::GuiExe => file_tool_issue(
            tool,
            config,
            target_is_file,
            exe_is_file,
            "未配置 EXE 路径"@,
            "EXE 路径"@,
            "EXE 不存在: "@,
            None,
        ),
    }
}

/// Why a tool cannot be launched, checked in this order: the target's extension, the
/// bound environment's path, unpaired double quotes in the arguments, arguments that
/// the command interpreter cannot take, then the kind-specific checks.
/// `target_is_file` tells whether the target is an existing file, `exe_is_file`
/// whether the launch executable in the bound environment is.
pub open spec fn tool_issue(tool: Tool, config: Config, target_is_file: bool, exe_is_file: bool) -> Option<Seq<char>> {
    match extension_issue(tool) {
        Some(m) => Some(m),
        None => match bound_path_issue(tool, config) {
            Some(m) => Some(m),
            None => if tool.tool_type != ToolKind::Web && tool.tool_type != ToolKind::Unknown
                && count_char(tool.args@, '"') % 2 != 0 {
                Some("启动参数的双引号没有配对"@)
            } else {
                match (if terminal_kind(tool.tool_type) {
                    cmd_args_issue("启动参数"@, tool_arguments(tool))
                } else {
                    None
                }) {
                    Some(m) => Some(m),
                    None => kind_issue(tool, config, target_is_file, exe_is_file),
                }
            },
        },
    }
}

fn extension_check(tool: &Tool) -> (r: Result<(), String>)
    ensures
        outcome(r) == extension_issue(*tool),
{
    match required_ext(tool.tool_type) {
        Some(ext) => {
            let tv = chars_of(tool.target.as_str());
            let tr = trim_chars(tv.as_slice());
            let target = string_of(tr.as_slice());
            let actual = file_ext(target.as_str());
            if tr.len() > 0 && !str_eq(actual.as_str(), ext) {
                let mut m = owned("文件类型不符：该类型需要 .");
                m.append(ext);
                m.append(" 文件，当前是");
                let av = chars_of(actual.as_str());
                if av.len() == 0 {
                    m.append("无扩展名");
                } else {
                    m.append(".");
                    m.append(actual.as_str());
                }
                Err(m)
            } else {
                Ok(())
            }
        },
        None => Ok(()),
    }
}

fn file_tool_check(
    tool: &Tool,
    config: &Config,
    target_is_file: bool,
    exe_is_file: bool,
    unset: &str,
    field: &str,
    absent: &str,
    env: Option<(EnvKind, &str)>,
) -> (r: Result<(), String>)
    ensures
        outcome(r) == file_tool_issue(
            *tool,
            *config,
            target_is_file,
            exe_is_file,
            unset@,
            field@,
            absent@,
            match env {
                Some((k, l)) => Some((k, l@)),
                None => None,
            },
        ),
{
    let tv = chars_of(tool.target.as_str());
    if blank(tv.as_slice()) {
        return Err(owned(unset));
    }
    check_env_path(field, tool.target.as_str())?;
    if !target_is_file {
        let mut m = owned(absent);
        m.append(tool.target.as_str());
        return Err(m);
    }
    match env {
        None => Ok(()),
        Some((k, label)) => {
            let e = require_env(tool, config, k, label)?;
            let (_path, issue) = resolve_launch_exe(tool.tool_type, e, exe_is_file);
            match issue {
                Some(i) => {
                    let mut m = i;
                    m.append("（环境「");
                    m.append(e.name.as_str());
                    m.append("」）");
                    Err(m)
                },
                None => Ok(()),
            }
        },
    }
}

fn web_check(tool: &Tool, config: &Config) -> (r: Result<(), String>)
    requires
        tool.tool_type == ToolKind::Web,
    ensures
        forall|tf: bool, ef: bool| outcome(r) == #[trigger] kind_issue(*tool, *config, tf, ef),
{
    let tv = chars_of(tool.target.as_str());
    let url = trim_chars(tv.as_slice());
    if url.len() == 0 {
        return Err(owned("未配置 URL"));
    }
    let lower = lower_chars(url.as_slice());
    if !(chars_start_with_str(lower.as_slice(), "http://") || chars_start_with_str(
        lower.as_slice(),
        "https://",
    )) {
        let mut m = owned("URL 必须以 http:// 或 https:// 开头: ");
        let u = string_of(url.as_slice());
        m.append(u.as_str());
        return Err(m);
    }
    Ok(())
}

/// Checks whether a tool can be launched (see `tool_issue`); `target_is_file` and
/// `exe_is_file` are what the disk says of the target and of the launch executable.
pub fn check_tool_with(tool: &Tool, config: &Config, target_is_file: bool, exe_is_file: bool) -> (r: Result<(), String>)
    ensures
        outcome(r) == tool_issue(*tool, *config, target_is_file, exe_is_file),
{
    extension_check(tool)?;
    match bound_env(tool, config) {
        Some(env) => {
            let mut what = owned("环境「");
            what.append(env.name.as_str());
            what.append("」的路径");
            check_env_path(what.as_str(), env.path.as_str())?;
        },
        None => {},
    }
    if tool.tool_type != ToolKind::Web && tool.tool_type != ToolKind::Unknown {
        let av = chars_of(tool.args.as_str());
        if count_of(av.as_slice(), '"') % 2 != 0 {
            return Err(owned("启动参数的双引号没有配对"));
        }
    }
    if is_terminal(tool.tool_type) {
        let args = command_arguments(tool);
        check_cmd_args("启动参数", args.as_slice())?;
    }
    match tool.tool_type {
        ToolKind::Unknown => Err(owned("未知的工具类型（可能由更高版本创建，当前版本无法启动）")),
        ToolKind::Web => web_check(tool, config),
        ToolKind::TerminalPython => file_tool_check(
            tool,
            config,
            target_is_file,
            exe_is_file,
            "未配置脚本路径",
            "脚本路径",
            "脚本不存在: ",
            Some((EnvKind::Python, "Python")),
        ),
        ToolKind::TerminalJava | ToolKind::GuiJava => file_tool_check(
            tool,
            config,
            target_is_file,
            exe_is_file,
            "未配置 JAR 路径",
            "JAR 路径",
            "JAR 不存在: ",
            Some((EnvKind::Java, "Java")),
        ),
        ToolKind::TerminalExe | ToolKind::GuiExe => file_tool_check(
            tool,
            config,
            target_is_file,
            exe_is_file,
            "未配置 EXE 路径",
            "EXE 路径",
            "EXE 不存在: ",
            None,
        ),
    }
}

/// std's `Path::is_file`: whether `path` names an existing regular file. The answer
/// depends on the disk at the moment of the call, so nothing is stated of it.
#[verifier::external_body]
fn path_is_file(path: &str) -> bool {
    std::path::Path::new(path).is_file()
}

/// Checks whether a tool can be launched, asking the disk whether its target and its
/// launch executable exist. Whatever the disk answers, the result is the one that
/// `tool_issue` gives for some answers.
pub fn check_tool(tool: &Tool, config: &Config) -> (r: Result<(), String>)
    ensures
        exists|tf: bool, ef: bool| outcome(r) == #[trigger] tool_issue(*tool, *config, tf, ef),
{
    let tf = path_is_file(tool.target.as_str());
    let ef = match bound_env(tool, config) {
        Some(env) => match launch_exe(tool.tool_type, env) {
            Some(p) => path_is_file(p.as_str()),
            None => false,
        },
        None => false,
    };
    check_tool_with(tool, config, tf, ef)
}

} // verus!

verus! {

/// The tokens, each always quoted, each preceded by a space.
pub open spec fn quoted_tail(args: Seq<Seq<char>>) -> Seq<char>
    decreases args.len(),
{
    if args.len() == 0 {
        Seq::empty()
    } else {
        quoted_tail(args.drop_last()) + seq![' '] + quote_token(args.last(), true)
    }
}

/// The line handed to the command interpreter for a terminal tool: the environment's
/// directory put first on `PATH`, a change to the working directory, then the program
/// and each argument in double quotes.
pub open spec fn cmd_line(
    program: Seq<char>,
    args: Seq<Seq<char>>,
    env_bin: Option<Seq<char>>,
    workdir: Seq<char>,
) -> Seq<char> {
    let path_part = match env_bin {
        Some(d) => "set \"PATH="@ + d + ";%PATH%\" && "@,
        None => Seq::empty(),
    };
    path_part + "cd /d \""@ + workdir + "\" && "@ + quote_token(program, true) + quoted_tail(args)
}

/// Builds the line handed to the command interpreter (see `cmd_line`).
pub fn terminal_cmd_line(program: &str, args: &[String], env_bin: Option<&str>, workdir: &str) -> (r: String)
    ensures
        r@ == cmd_line(
            program@,
            views(args@),
            match env_bin {
                Some(d) => Some(d@),
                None => None,
            },
            workdir@,
        ),
{
    let mut line = String::new();
    match env_bin {
        Some(dir) => {
            line.append("set \"PATH=");
            line.append(dir);
            line.append(";%PATH%\" && ");
        },
        None => {},
    }
    line.append("cd /d \"");
    line.append(workdir);
    line.append("\" && ");
    let p = quote_windows_arg_forced(program);
    line.append(p.as_str());
    let ghost head = line@;
    let ghost a = views(args@);
    let mut i: usize = 0;
    while i < args.len()
        invariant
            i <= args.len(),
            a == views(args@),
            line@ == head + quoted_tail(a.take(i as int)),
        decreases args.len() - i,
    {
        assert(a.take(i + 1).drop_last() == a.take(i as int));
        crate::text::push_char(&mut line, ' ');
        let q = quote_windows_arg_forced(args[i].as_str());
        line.append(q.as_str());
        i += 1;
    }
    assert(a.take(args.len() as int) == a);
    line
}

/// A tool's working directory: the directory of its target, or `cwd` (the process's
/// current directory) when the target has no directory part.
pub open spec fn work_dir(target: Seq<char>, cwd: Seq<char>) -> Seq<char> {
    match parent(target) {
        Some(p) => if p.len() > 0 {
            p
        } else {
            cwd
        },
        None => cwd,
    }
}

/// A tool's working directory (see `work_dir`).
pub fn workdir_of(tool: &Tool, cwd: &str) -> (r: String)
    ensures
        r@ == work_dir(tool.target@, cwd@),
{
    match path_parent(tool.target.as_str()) {
        Some(p) => {
            let pv = chars_of(p.as_str());
            if pv.len() > 0 {
                p
            } else {
                owned(cwd)
            }
        },
        None => owned(cwd),
    }
}

/// How a tool is started.
#[derive(Clone, Debug)]
pub enum LaunchPlan {
    /// Open a web page in the default browser.
    OpenUrl { url: String },
    /// Run the command interpreter with this argument text (`/K` and the line), in a new console.
    Terminal { command_text: String },
    /// Start a program with these arguments in this directory.
    Program { program: String, args: Vec<String>, workdir: String },
    /// Start a program as administrator, with one parameter string, in this directory.
    Elevated { program: String, params: String, workdir: String },
}

/// What a launch plan holds, as values.
pub enum PlanView {
    OpenUrl(Seq<char>),
    Terminal(Seq<char>),
    Program(Seq<char>, Seq<Seq<char>>, Seq<char>),
    Elevated(Seq<char>, Seq<char>, Seq<char>),
}

impl View for LaunchPlan {
    type V = PlanView;

    open spec fn view(&self) -> PlanView {
        match self {
            LaunchPlan::OpenUrl { url } => PlanView::OpenUrl(url@),
            LaunchPlan::Terminal { command_text } => PlanView::Terminal(command_text@),
            LaunchPlan::Program { program, args, workdir } => PlanView::Program(
                program@,
                views(args@),
                workdir@,
            ),
            LaunchPlan::Elevated { program, params, workdir } => PlanView::Elevated(
                program@,
                params@,
                workdir@,
            ),
        }
    }
}

/// Why a launch is refused: elevation asked for a tool that is not a GUI EXE, or a
/// failed pre-launch check.
pub open spec fn launch_refusal(
    tool: Tool,
    config: Config,
    as_admin: bool,
    target_is_file: bool,
    exe_is_file: bool,
) -> Option<Seq<char>> {
    if as_admin && tool.tool_type != ToolKind::GuiExe {
        Some("只有「GUI exe」类型支持以管理员身份运行"@)
    } else {
        tool_issue(tool, config, target_is_file, exe_is_file)
    }
}

/// How a tool that passed its checks is started: a web tool opens its URL; a terminal
/// tool runs `cmd /K` with `cmd_line` (a terminal EXE is its own program and gets no
/// `PATH` change); a GUI Java tool runs `javaw.exe` with the JVM options, `-jar`, the
/// JAR and the program arguments; a GUI EXE runs itself, elevated with its arguments
/// joined into one quoted parameter string when asked.
pub open spec fn planned(tool: Tool, config: Config, as_admin: bool, cwd: Seq<char>) -> PlanView {
    let wd = work_dir(tool.target@, cwd);
    let env = bound_env_of(tool, config)->0;
    match tool.tool_type {
        ToolKind::Web => PlanView::OpenUrl(tool.target@),
        ToolKind::TerminalExe => PlanView::Terminal(
            "/K "@ + cmd_line(tool.target@, tool_arguments(tool), None, wd),
        ),
        ToolKind::TerminalPython | ToolKind::TerminalJava => PlanView::Terminal(
            "/K "@ + cmd_line(
                launch_exe_path(tool.tool_type, env)->0,
                tool_arguments(tool),
                Some(env_bin_dir(env)),
                wd,
            ),
        ),
        ToolKind::GuiJava => PlanView::Program(
            launch_exe_path(tool.tool_type, env)->0,
            java_split(tool.args@).0 + seq!["-jar"@, tool.target@] + java_split(tool.args@).1,
            wd,
        ),
        ToolKind::GuiExe => if as_admin {
            PlanView::Elevated(tool.target@, joined_tokens(split_words(tool.args@)), wd)
        } else {
            PlanView::Program(tool.target@, split_words(tool.args@), wd)
        },
        ToolKind::Unknown => PlanView::OpenUrl(Seq::empty()),
    }
}

/// The result of a launch decision: the refusal's text, or the plan.
pub open spec fn launch_decided(
    tool: Tool,
    config: Config,
    as_admin: bool,
    cwd: Seq<char>,
    target_is_file: bool,
    exe_is_file: bool,
    r: Result<LaunchPlan, String>,
) -> bool {
    match launch_refusal(tool, config, as_admin, target_is_file, exe_is_file) {
        Some(m) => r matches Err(e) && e@ == m,
        None => r matches Ok(p) && p@ == planned(tool, config, as_admin, cwd),
    }
}

/// Decides how to start a tool (see `launch_refusal` and `planned`); `target_is_file`
/// and `exe_is_file` are what the disk says of the target and the launch executable,
/// `cwd` is the process's current directory.
pub fn plan_launch_with(
    tool: &Tool,
    config: &Config,
    as_admin: bool,
    cwd: &str,
    target_is_file: bool,
    exe_is_file: bool,
) -> (r: Result<LaunchPlan, String>)
    ensures
        launch_decided(*tool, *config, as_admin, cwd@, target_is_file, exe_is_file, r),
{
    if as_admin && tool.tool_type != ToolKind::GuiExe {
        return Err(owned("只有「GUI exe」类型支持以管理员身份运行"));
    }
    check_tool_with(tool, config, target_is_file, exe_is_file)?;
    let wd = workdir_of(tool, cwd);
    match tool.tool_type {
        ToolKind::Web => Ok(LaunchPlan::OpenUrl { url: tool.target.clone() }),
        ToolKind::TerminalExe => {
            let args = command_arguments(tool);
            let line = terminal_cmd_line(tool.target.as_str(), args.as_slice(), None, wd.as_str());
            let mut text = owned("/K ");
            text.append(line.as_str());
            Ok(LaunchPlan::Terminal { command_text: text })
        },
        ToolKind::TerminalPython | ToolKind::TerminalJava => {
            let env = match bound_env(tool, config) {
                Some(e) => e,
                None => return Err(owned("未绑定运行环境")),
            };
            let (program, issue) = resolve_launch_exe(tool.tool_type, env, exe_is_file);
            match issue {
                Some(i) => return Err(i),
                None => {},
            }
            let bin = bin_dir(env);
            let args = command_arguments(tool);
            let line = terminal_cmd_line(
                program.as_str(),
                args.as_slice(),
                Some(bin.as_str()),
                wd.as_str(),
            );
            let mut text = owned("/K ");
            text.append(line.as_str());
            Ok(LaunchPlan::Terminal { command_text: text })
        },
        ToolKind::GuiJava => {
            let env = require_env(tool, config, EnvKind::Java, "Java")?;
            let (mut jvm, mut rest) = split_java_args(tool.args.as_str());
            let (program, issue) = resolve_launch_exe(tool.tool_type, env, exe_is_file);
            match issue {
                Some(i) => return Err(i),
                None => {},
            }
            let mut args: Vec<String> = Vec::new();
            args.append(&mut jvm);
            args.push(owned("-jar"));
            args.push(tool.target.clone());
            args.append(&mut rest);
            assert(views(args@) == java_split(tool.args@).0 + seq!["-jar"@, tool.target@]
                + java_split(tool.args@).1);
            Ok(LaunchPlan::Program { program, args, workdir: wd })
        },
        ToolKind::GuiExe => {
            let args = split_args(tool.args.as_str());
            if as_admin {
                let params = join_windows_args(args.as_slice());
                Ok(LaunchPlan::Elevated { program: tool.target.clone(), params, workdir: wd })
            } else {
                Ok(LaunchPlan::Program { program: tool.target.clone(), args, workdir: wd })
            }
        },
        ToolKind::Unknown => Err(owned("未知的工具类型，无法启动")),
    }
}

/// Decides how to start a tool, asking the disk whether its target and launch
/// executable exist. Whatever the disk answers, the result is the one that
/// `plan_launch_with` gives for some answers.
pub fn plan_launch(tool: &Tool, config: &Config, as_admin: bool, cwd: &str) -> (r: Result<LaunchPlan, String>)
    ensures
        exists|tf: bool, ef: bool| #[trigger] launch_decided(*tool, *config, as_admin, cwd@, tf, ef, r),
{
    let tf = path_is_file(tool.target.as_str());
    let ef = match bound_env(tool, config) {
        Some(env) => match launch_exe(tool.tool_type, env) {
            Some(p) => path_is_file(p.as_str()),
            None => false,
        },
        None => false,
    };
    plan_launch_with(tool, config, as_admin, cwd, tf, ef)
}

/// The Windows error code of a refused elevation prompt (`ERROR_CANCELLED`).
pub const ERROR_CANCELLED: i32 = 1223;

/// The message of a failed elevated start: the user's refusal of the prompt has its
/// own message; any other failure reports the system's description `detail`.
pub open spec fn elevation_message(code: Option<i32>, detail: Seq<char>) -> Seq<char> {
    if code == Some(1223i32) {
        "已取消：用户拒绝了管理员授权"@
    } else {
        "管理员启动失败: "@ + detail
    }
}

/// The message of a failed elevated start (see `elevation_message`).
pub fn elevation_error(code: Option<i32>, detail: &str) -> (r: String)
    ensures
        r@ == elevation_message(code, detail@),
{
    match code {
        Some(c) => {
            if c == ERROR_CANCELLED {
                return owned("已取消：用户拒绝了管理员授权");
            }
        },
        None => {},
    }
    let mut r = owned("管理员启动失败: ");
    r.append(detail);
    r
}

} // verus!
