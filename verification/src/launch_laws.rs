//! Laws of launching: what a planned launch runs for each kind of tool, which Java
//! arguments go before `-jar`, and which paths the command-line check accepts.

use vstd::prelude::*;
use crate::model::{Config, Env, EnvKind, Tool, ToolKind};
use crate::text::{count_char, free_of, first_in, has_prefix, is_blank, trim};
use crate::args::{java_run, java_split, joined_tokens, jvm_option, split_run, split_words};
use crate::arg_laws::{leading_jvm, lemma_java_split_law};
use crate::launcher::{
    bound_env_of, cmd_arg_issue, cmd_args_issue, cmd_line, required_extension, launch_decided, launch_refusal, path_issue, tool_issue, work_dir,
    LaunchPlan, PlanView,
};
use crate::paths::{join, lower_extension};

verus! {

/// The environment bound to `tool`, when it passed its checks.
pub open spec fn env_of(tool: Tool, config: Config) -> Env {
    bound_env_of(tool, config)->0
}

proof fn lemma_checked_env(tool: Tool, config: Config, tf: bool, ef: bool)
    requires
        tool_issue(tool, config, tf, ef) is None,
        tool.tool_type == ToolKind::TerminalPython || tool.tool_type == ToolKind::TerminalJava
            || tool.tool_type == ToolKind::GuiJava,
    ensures
        bound_env_of(tool, config) is Some,
        tool.tool_type == ToolKind::TerminalPython ==> env_of(tool, config).kind == EnvKind::Python,
        tool.tool_type != ToolKind::TerminalPython ==> env_of(tool, config).kind == EnvKind::Java,
{
}

/// What a launch that passed its checks runs, kind by kind:
/// - a web tool opens its target;
/// - a terminal EXE runs `cmd /K` with the EXE itself and its split arguments, with no
///   `PATH` change;
/// - a terminal Python tool runs `cmd /K` with `python.exe` of its environment, then its
///   script (the target), then the split arguments, the environment's directory put first
///   on `PATH`;
/// - a terminal Java tool runs `java.exe` of the environment's `bin` directory with the
///   leading JVM options, `-jar`, the JAR (the target) and the program arguments, `bin`
///   first on `PATH`; a GUI Java tool runs `javaw.exe` with the same arguments;
/// - a GUI EXE runs itself with its split arguments, or, elevated, with them joined into
///   one parameter string.
/// Each runs in the target's directory (`work_dir`).
pub proof fn lemma_launch_runs(
    tool: Tool,
    config: Config,
    as_admin: bool,
    cwd: Seq<char>,
    tf: bool,
    ef: bool,
    r: Result<LaunchPlan, String>,
)
    requires
        launch_decided(tool, config, as_admin, cwd, tf, ef, r),
        launch_refusal(tool, config, as_admin, tf, ef) is None,
    ensures
        r is Ok,
        ({
            let p = r->Ok_0@;
            let wd = work_dir(tool.target@, cwd);
            let words = split_words(tool.args@);
            let java_args = java_split(tool.args@).0 + seq!["-jar"@, tool.target@] + java_split(tool.args@).1;
            let home = env_of(tool, config).path@;
            &&& tool.tool_type == ToolKind::Web ==> p == PlanView::OpenUrl(tool.target@)
            &&& tool.tool_type == ToolKind::TerminalExe ==> p == PlanView::Terminal(
                "/K "@ + cmd_line(tool.target@, words, None, wd),
            )
            &&& tool.tool_type == ToolKind::TerminalPython ==> p == PlanView::Terminal(
                "/K "@ + cmd_line(join(home, "python.exe"@), seq![tool.target@] + words, Some(home), wd),
            )
            &&& tool.tool_type == ToolKind::TerminalJava ==> p == PlanView::Terminal(
                "/K "@ + cmd_line(
                    join(join(home, "bin"@), "java.exe"@),
                    java_args,
                    Some(join(home, "bin"@)),
                    wd,
                ),
            )
            &&& tool.tool_type == ToolKind::GuiJava ==> p == PlanView::Program(
                join(join(home, "bin"@), "javaw.exe"@),
                java_args,
                wd,
            )
            &&& (tool.tool_type == ToolKind::GuiExe && !as_admin) ==> p == PlanView::Program(
                tool.target@,
                words,
                wd,
            )
            &&& (tool.tool_type == ToolKind::GuiExe && as_admin) ==> p == PlanView::Elevated(
                tool.target@,
                joined_tokens(words),
                wd,
            )
        }),
{
    if tool.tool_type == ToolKind::TerminalPython || tool.tool_type == ToolKind::TerminalJava
        || tool.tool_type == ToolKind::GuiJava {
        lemma_checked_env(tool, config, tf, ef);
    }
}

/// The forms of a JVM launch option: `-X…`, `-D…`, `--add-…`, `--enable-…`,
/// `--disable-…`, and the flags `-ea -da -esa -dsa -server -client -verbose -version`.
pub open spec fn jvm_form(t: Seq<char>) -> bool {
    ||| has_prefix(t, "-X"@)
    ||| has_prefix(t, "-D"@)
    ||| has_prefix(t, "--add-"@)
    ||| has_prefix(t, "--enable-"@)
    ||| has_prefix(t, "--disable-"@)
    ||| t == "-ea"@ || t == "-da"@ || t == "-esa"@ || t == "-dsa"@
    ||| t == "-server"@ || t == "-client"@ || t == "-verbose"@ || t == "-version"@
}

/// Leading tokens that have the form of JVM options (such as
/// `--add-opens=java.base/java.lang=ALL-UNNAMED`) are placed, in order, in the JVM part
/// of a Java tool's arguments, before `-jar`; none of them is passed to the program. The
/// first token of another form (such as `--port`) ends the JVM part.
pub proof fn lemma_leading_jvm_forms_go_first(s: Seq<char>, n: int)
    requires
        0 <= n <= split_words(s).len(),
        forall|i: int| 0 <= i < n ==> jvm_form(#[trigger] split_words(s)[i]),
    ensures
        java_split(s).0.len() >= n,
        forall|i: int| 0 <= i < n ==> #[trigger] java_split(s).0[i] == split_words(s)[i],
        java_split(s).1 == crate::arg_laws::drop_jar(split_words(s).skip(java_split(s).0.len() as int)),
        n < split_words(s).len() && !jvm_form(split_words(s)[n]) ==> java_split(s).0 == split_words(s).take(n),
{
    let ts = split_words(s);
    lemma_java_split_law(s);
    let k = leading_jvm(ts) as int;
    if k < n {
        assert(jvm_form(ts[k]));
        assert(jvm_option(ts[k]));
    }
    assert(java_split(s).0.len() == k);
    if n < ts.len() && !jvm_form(ts[n]) && k > n {
        assert(jvm_option(ts[n]));
    }
}

proof fn lemma_first_in_absent(s: Seq<char>, a: char, b: char)
    requires
        free_of(s, a),
        free_of(s, b),
    ensures
        first_in(s, seq![a, b]) is None,
    decreases s.len(),
{
    if s.len() > 0 {
        assert(s[0] != a && s[0] != b);
        assert(!seq![a, b].contains(s[0])) by {
            if seq![a, b].contains(s[0]) {
                let j = choose|j: int| 0 <= j < 2 && seq![a, b][j] == s[0];
                assert(j == 0 || j == 1);
            }
        }
        assert forall|i: int| 0 <= i < s.drop_first().len() implies s.drop_first()[i] != a
            && s.drop_first()[i] != b by {
            assert(s.drop_first()[i] == s[i + 1]);
        }
        lemma_first_in_absent(s.drop_first(), a, b);
    }
}

/// A path that is not blank and holds no double quote, single quote, line break or `%`
/// is accepted by the command-line check (`check_env_path`): spaces, as in
/// `C:\Program Files\Python312`, are fine, since the path is quoted on the line.
pub proof fn lemma_plain_path_accepted(what: Seq<char>, value: Seq<char>)
    requires
        !is_blank(value),
        free_of(value, '"'),
        free_of(value, '\''),
        free_of(value, '\r'),
        free_of(value, '\n'),
        free_of(value, '%'),
    ensures
        path_issue(what, value) is None,
{
    lemma_first_in_absent(value, '"', '\'');
    lemma_first_in_absent(value, '\r', '\n');
    assert(!value.contains('%')) by {
        if value.contains('%') {
            let j = choose|j: int| 0 <= j < value.len() && value[j] == '%';
            assert(value[j] != '%');
        }
    }
}

/// A text that the command interpreter takes as it is inside quotes: no double quote,
/// `%` or line break.
pub open spec fn cmd_plain(a: Seq<char>) -> bool {
    free_of(a, '"') && free_of(a, '%') && free_of(a, '\r') && free_of(a, '\n')
}

/// A path field that the checks accept: not blank, and no quote of either kind, line
/// break or `%`.
pub open spec fn plain_path(v: Seq<char>) -> bool {
    !is_blank(v) && cmd_plain(v) && free_of(v, '\'')
}

proof fn lemma_count_absent(s: Seq<char>, c: char)
    requires
        free_of(s, c),
    ensures
        count_char(s, c) == 0,
    decreases s.len(),
{
    if s.len() > 0 {
        assert(s.last() == s[s.len() - 1]);
        lemma_count_absent(s.drop_last(), c);
    }
}

proof fn lemma_split_run_plain(s: Seq<char>)
    requires
        cmd_plain(s),
    ensures
        forall|i: int| 0 <= i < split_run(s).0.len() ==> cmd_plain(#[trigger] split_run(s).0[i]),
        cmd_plain(split_run(s).1),
    decreases s.len(),
{
    if s.len() > 0 {
        let p = s.drop_last();
        assert(cmd_plain(p));
        lemma_split_run_plain(p);
        let st = split_run(p);
        let c = s.last();
        assert(c == s[s.len() - 1]);
        if !((c == ' ' || c == '\t') && !st.2) && c != '"' {
            let t = st.1.push(c);
            assert forall|j: int| 0 <= j < t.len() implies t[j] != '"' && t[j] != '%' && t[j]
                != '\r' && t[j] != '\n' by {
                if j < st.1.len() {
                    assert(t[j] == st.1[j]);
                }
            }
        }
        if (c == ' ' || c == '\t') && !st.2 && st.3 {
            assert forall|i: int| 0 <= i < st.0.push(st.1).len() implies cmd_plain(
                #[trigger] st.0.push(st.1)[i],
            ) by {
                if i < st.0.len() {
                    assert(st.0.push(st.1)[i] == st.0[i]);
                }
            }
            assert(cmd_plain(Seq::<char>::empty()));
        }
    }
}

proof fn lemma_words_plain(s: Seq<char>)
    requires
        cmd_plain(s),
    ensures
        forall|i: int| 0 <= i < split_words(s).len() ==> cmd_plain(#[trigger] split_words(s)[i]),
{
    lemma_split_run_plain(s);
    let st = split_run(s);
    if st.3 {
        assert forall|i: int| 0 <= i < st.0.push(st.1).len() implies cmd_plain(
            #[trigger] st.0.push(st.1)[i],
        ) by {
            if i < st.0.len() {
                assert(st.0.push(st.1)[i] == st.0[i]);
            }
        }
    }
}

proof fn lemma_java_run_plain(ts: Seq<Seq<char>>)
    requires
        forall|i: int| 0 <= i < ts.len() ==> cmd_plain(#[trigger] ts[i]),
    ensures
        forall|i: int| 0 <= i < java_run(ts).0.len() ==> cmd_plain(#[trigger] java_run(ts).0[i]),
        forall|i: int| 0 <= i < java_run(ts).1.len() ==> cmd_plain(#[trigger] java_run(ts).1[i]),
    decreases ts.len(),
{
    if ts.len() > 0 {
        let p = ts.drop_last();
        assert forall|i: int| 0 <= i < p.len() implies cmd_plain(#[trigger] p[i]) by {
            assert(p[i] == ts[i]);
        }
        lemma_java_run_plain(p);
        let st = java_run(p);
        assert(cmd_plain(ts[ts.len() - 1]));
        assert forall|i: int| 0 <= i < java_run(ts).0.len() implies cmd_plain(#[trigger] java_run(ts).0[i]) by {
            if i < st.0.len() {
                assert(java_run(ts).0[i] == st.0[i]);
            }
        }
        assert forall|i: int| 0 <= i < java_run(ts).1.len() implies cmd_plain(#[trigger] java_run(ts).1[i]) by {
            if i < st.1.len() {
                assert(java_run(ts).1[i] == st.1[i]);
            }
        }
    }
}

proof fn lemma_plain_args_pass(what: Seq<char>, args: Seq<Seq<char>>)
    requires
        forall|i: int| 0 <= i < args.len() ==> cmd_plain(#[trigger] args[i]),
    ensures
        cmd_args_issue(what, args) is None,
    decreases args.len(),
{
    if args.len() > 0 {
        let a = args[0];
        assert(cmd_plain(a));
        lemma_first_in_absent(a, '\r', '\n');
        assert(!a.contains('%')) by {
            if a.contains('%') {
                let j = choose|j: int| 0 <= j < a.len() && a[j] == '%';
                assert(a[j] != '%');
            }
        }
        assert(!a.contains('"')) by {
            if a.contains('"') {
                let j = choose|j: int| 0 <= j < a.len() && a[j] == '"';
                assert(a[j] != '"');
            }
        }
        assert(cmd_arg_issue(what, a) is None);
        let rest = args.drop_first();
        assert forall|i: int| 0 <= i < rest.len() implies cmd_plain(#[trigger] rest[i]) by {
            assert(rest[i] == args[i + 1]);
        }
        lemma_plain_args_pass(what, rest);
    }
}

/// A file tool passes its pre-launch checks when everything is in order: its target
/// has the kind's extension, is a plain path (spaces allowed, as in
/// `C:\Program Files\...`) and an existing file; its arguments hold no double quote,
/// `%` or line break; a bound environment has a plain path; a Python or Java tool is
/// bound to an environment of its kind whose launch executable exists.
pub proof fn lemma_ready_tool_passes(tool: Tool, config: Config)
    requires
        tool.tool_type != ToolKind::Web,
        tool.tool_type != ToolKind::Unknown,
        lower_extension(trim(tool.target@)) == required_extension(tool.tool_type)->0,
        plain_path(tool.target@),
        cmd_plain(tool.args@),
        bound_env_of(tool, config) is Some ==> plain_path(env_of(tool, config).path@),
        tool.tool_type == ToolKind::TerminalPython ==> bound_env_of(tool, config) is Some
            && env_of(tool, config).kind == EnvKind::Python,
        (tool.tool_type == ToolKind::TerminalJava || tool.tool_type == ToolKind::GuiJava)
            ==> bound_env_of(tool, config) is Some && env_of(tool, config).kind == EnvKind::Java,
    ensures
        tool_issue(tool, config, true, true) is None,
{
    lemma_plain_path_accepted("脚本路径"@, tool.target@);
    lemma_plain_path_accepted("JAR 路径"@, tool.target@);
    lemma_plain_path_accepted("EXE 路径"@, tool.target@);
    if bound_env_of(tool, config) is Some {
        let e = env_of(tool, config);
        lemma_plain_path_accepted("环境「"@ + e.name@ + "」的路径"@, e.path@);
    }
    lemma_count_absent(tool.args@, '"');
    lemma_words_plain(tool.args@);
    let ws = split_words(tool.args@);
    let t = tool.target@;
    match tool.tool_type {
        ToolKind::TerminalPython => {
            let args = seq![t] + ws;
            assert forall|i: int| 0 <= i < args.len() implies cmd_plain(#[trigger] args[i]) by {
                if i > 0 {
                    assert(args[i] == ws[i - 1]);
                }
            }
            lemma_plain_args_pass("启动参数"@, args);
        },
        ToolKind::TerminalJava => {
            lemma_java_run_plain(ws);
            let j = java_split(tool.args@);
            let args = j.0 + seq!["-jar"@, t] + j.1;
            assert(cmd_plain("-jar"@)) by {
                reveal_strlit("-jar");
            }
            assert forall|i: int| 0 <= i < args.len() implies cmd_plain(#[trigger] args[i]) by {
                if i < j.0.len() {
                    assert(args[i] == j.0[i]);
                } else if i == j.0.len() {
                    assert(args[i] == "-jar"@);
                } else if i == j.0.len() + 1 {
                    assert(args[i] == t);
                } else {
                    assert(args[i] == j.1[i - j.0.len() - 2]);
                }
            }
            lemma_plain_args_pass("启动参数"@, args);
        },
        ToolKind::TerminalExe => {
            lemma_plain_args_pass("启动参数"@, ws);
        },
        _ => {},
    }
}

} // verus!
