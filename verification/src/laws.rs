//! Properties of the launcher that span its functions: what a passed check
//! guarantees about what reaches the command interpreter, and how arguments are
//! split, sorted and quoted.

use vstd::prelude::*;
use crate::model::{Config, EnvKind, Tool, ToolKind, sanitized_theme, sanitized_close_action};
use crate::text::{ascii_lower, count_char, first_in, has_prefix, trim};
use crate::args::{
    backslashes, escape_quoted, java_run, java_split, jvm_option, quote_token, split_run,
    split_words, trailing_backslashes,
};
use crate::launcher::{
    bound_env_of, cmd_arg_issue, cmd_args_issue, path_issue, terminal_kind, tool_arguments,
    tool_issue,
};

verus! {

/// A text that may go into a command line: no `%`, no double quote, no line break.
pub open spec fn cmd_safe(a: Seq<char>) -> bool {
    !a.contains('%') && !a.contains('"') && !a.contains('\r') && !a.contains('\n')
}

proof fn lemma_first_in_none(s: Seq<char>, a: char, b: char)
    requires
        first_in(s, seq![a, b]) is None,
    ensures
        !s.contains(a) && !s.contains(b),
    decreases s.len(),
{
    if s.len() > 0 {
        assert(seq![a, b][0] == a && seq![a, b][1] == b);
        assert(!seq![a, b].contains(s[0]));
        lemma_first_in_none(s.drop_first(), a, b);
        if s.contains(a) {
            let j = choose|j: int| 0 <= j < s.len() && s[j] == a;
            if j > 0 {
                assert(s.drop_first()[j - 1] == a);
            }
        }
        if s.contains(b) {
            let j = choose|j: int| 0 <= j < s.len() && s[j] == b;
            if j > 0 {
                assert(s.drop_first()[j - 1] == b);
            }
        }
    }
}

/// An argument list that passes `check_cmd_args` holds no `%`, double quote or line
/// break in any argument.
pub proof fn lemma_cmd_args_safe(what: Seq<char>, args: Seq<Seq<char>>)
    requires
        cmd_args_issue(what, args) is None,
    ensures
        forall|i: int| 0 <= i < args.len() ==> cmd_safe(#[trigger] args[i]),
    decreases args.len(),
{
    if args.len() > 0 {
        assert(cmd_arg_issue(what, args[0]) is None);
        lemma_first_in_none(args[0], '\r', '\n');
        lemma_cmd_args_safe(what, args.drop_first());
        assert forall|i: int| 0 <= i < args.len() implies cmd_safe(#[trigger] args[i]) by {
            if i > 0 {
                assert(args[i] == args.drop_first()[i - 1]);
            }
        }
    }
}

/// A path that passes `check_env_path` is not blank and holds no quote, line break or `%`.
pub proof fn lemma_path_safe(what: Seq<char>, value: Seq<char>)
    requires
        path_issue(what, value) is None,
    ensures
        cmd_safe(value),
        !value.contains('\''),
{
    lemma_first_in_none(value, '"', '\'');
    lemma_first_in_none(value, '\r', '\n');
}

/// A quote-free argument is quoted by adding a double quote on each side and doubling
/// its trailing backslashes: nothing inside the quotes can end them, so `& | < > ^ ;`
/// stay plain content for the command interpreter.
pub proof fn lemma_quote_free_token(a: Seq<char>)
    requires
        !a.contains('"'),
    ensures
        quote_token(a, true) == seq!['"'] + a + backslashes(trailing_backslashes(a)) + seq!['"'],
    decreases a.len(),
{
    lemma_escape_without_quotes(a);
}

proof fn lemma_escape_without_quotes(a: Seq<char>)
    requires
        !a.contains('"'),
    ensures
        escape_quoted(a) == a,
    decreases a.len(),
{
    if a.len() > 0 {
        let p = a.drop_last();
        assert(!p.contains('"')) by {
            if p.contains('"') {
                let j = choose|j: int| 0 <= j < p.len() && p[j] == '"';
                assert(a[j] == '"');
            }
        }
        lemma_escape_without_quotes(p);
        assert(a[a.len() - 1] != '"');
        assert(p.push(a.last()) == a);
    }
}

/// A terminal tool that passes its checks hands the command interpreter only arguments
/// without `%`, double quotes or line breaks, and has an even number of double quotes
/// in its argument text.
pub proof fn lemma_checked_terminal_args(tool: Tool, config: Config, tf: bool, ef: bool)
    requires
        tool_issue(tool, config, tf, ef) is None,
        terminal_kind(tool.tool_type),
    ensures
        forall|i: int|
            0 <= i < tool_arguments(tool).len() ==> cmd_safe(#[trigger] tool_arguments(tool)[i]),
        count_char(tool.args@, '"') % 2 == 0,
{
    lemma_cmd_args_safe("启动参数"@, tool_arguments(tool));
}

/// A tool whose arguments hold an odd number of double quotes is refused (except web
/// and unknown tools, which take no arguments).
pub proof fn lemma_unpaired_quotes_refused(tool: Tool, config: Config, tf: bool, ef: bool)
    requires
        tool.tool_type != ToolKind::Web,
        tool.tool_type != ToolKind::Unknown,
        count_char(tool.args@, '"') % 2 != 0,
    ensures
        tool_issue(tool, config, tf, ef) is Some,
{
}

/// A Java or Python tool that passes its checks is bound to an environment of its own
/// kind, whose path may go into a command line: such tools never fall back to the
/// system `PATH`.
pub proof fn lemma_checked_tool_has_env(tool: Tool, config: Config, tf: bool, ef: bool)
    requires
        tool_issue(tool, config, tf, ef) is None,
        tool.tool_type == ToolKind::TerminalPython || tool.tool_type == ToolKind::TerminalJava
            || tool.tool_type == ToolKind::GuiJava,
    ensures
        bound_env_of(tool, config) matches Some(e) && e.kind == (if tool.tool_type
            == ToolKind::TerminalPython {
            EnvKind::Python
        } else {
            EnvKind::Java
        }) && cmd_safe(e.path@),
{
    let e = bound_env_of(tool, config)->0;
    lemma_path_safe("环境「"@ + e.name@ + "」的路径"@, e.path@);
}

/// A web tool passes its checks only with an `http://` or `https://` URL (in any case).
pub proof fn lemma_checked_web_url(tool: Tool, config: Config, tf: bool, ef: bool)
    requires
        tool_issue(tool, config, tf, ef) is None,
        tool.tool_type == ToolKind::Web,
    ensures
        has_prefix(ascii_lower(trim(tool.target@)), "http://"@) || has_prefix(
            ascii_lower(trim(tool.target@)),
            "https://"@,
        ),
{
}

/// A tool of unknown kind never passes its checks.
pub proof fn lemma_unknown_kind_refused(tool: Tool, config: Config, tf: bool, ef: bool)
    requires
        tool.tool_type == ToolKind::Unknown,
    ensures
        tool_issue(tool, config, tf, ef) is Some,
{
}

/// No token of `split_args` holds a double quote: quotes only group.
pub proof fn lemma_split_tokens_hold_no_quote(s: Seq<char>)
    ensures
        forall|i: int| 0 <= i < split_words(s).len() ==> !(#[trigger] split_words(s)[i]).contains('"'),
{
    lemma_split_run_quote_free(s);
}

proof fn lemma_split_run_quote_free(s: Seq<char>)
    ensures
        forall|i: int| 0 <= i < split_run(s).0.len() ==> !(#[trigger] split_run(s).0[i]).contains('"'),
        !split_run(s).1.contains('"'),
    decreases s.len(),
{
    if s.len() > 0 {
        let p = s.drop_last();
        let c = s.last();
        lemma_split_run_quote_free(p);
        let st = split_run(p);
        if c != '"' && !((c == ' ' || c == '\t') && !st.2) {
            assert(!st.1.push(c).contains('"')) by {
                if st.1.push(c).contains('"') {
                    let j = choose|j: int| 0 <= j < st.1.push(c).len() && st.1.push(c)[j] == '"';
                    if j < st.1.len() {
                        assert(st.1[j] == '"');
                    }
                }
            }
        }
        if (c == ' ' || c == '\t') && !st.2 && st.3 {
            assert forall|i: int| 0 <= i < st.0.push(st.1).len() implies !(#[trigger] st.0.push(
                st.1,
            )[i]).contains('"') by {
                if i < st.0.len() {
                    assert(st.0.push(st.1)[i] == st.0[i]);
                }
            }
        }
    }
}

/// The JVM part of a Java tool's arguments holds only JVM options, and the program
/// part never holds `-jar` (the JAR comes from the tool's target alone).
pub proof fn lemma_java_split_parts(s: Seq<char>)
    ensures
        forall|i: int| 0 <= i < java_split(s).0.len() ==> jvm_option(#[trigger] java_split(s).0[i]),
        forall|i: int| 0 <= i < java_split(s).1.len() ==> #[trigger] java_split(s).1[i] != "-jar"@,
{
    lemma_java_run_parts(split_words(s));
}

proof fn lemma_java_run_parts(ts: Seq<Seq<char>>)
    ensures
        forall|i: int| 0 <= i < java_run(ts).0.len() ==> jvm_option(#[trigger] java_run(ts).0[i]),
        forall|i: int| 0 <= i < java_run(ts).1.len() ==> #[trigger] java_run(ts).1[i] != "-jar"@,
    decreases ts.len(),
{
    if ts.len() > 0 {
        let p = ts.drop_last();
        lemma_java_run_parts(p);
        let st = java_run(p);
        assert forall|i: int| 0 <= i < java_run(ts).0.len() implies jvm_option(
            #[trigger] java_run(ts).0[i],
        ) by {
            if i < st.0.len() {
                assert(java_run(ts).0[i] == st.0[i]);
            }
        }
        assert forall|i: int| 0 <= i < java_run(ts).1.len() implies #[trigger] java_run(ts).1[i]
            != "-jar"@ by {
            if i < st.1.len() {
                assert(java_run(ts).1[i] == st.1[i]);
            }
        }
    }
}

/// Sanitized settings always hold a known theme and close action, and sanitizing them
/// again changes nothing.
pub proof fn lemma_sanitized_settings(theme: Seq<char>, close_action: Seq<char>)
    ensures
        sanitized_theme(theme) == "light"@ || sanitized_theme(theme) == "dark"@,
        sanitized_close_action(close_action) == "exit"@ || sanitized_close_action(close_action)
            == "tray"@,
        sanitized_theme(sanitized_theme(theme)) == sanitized_theme(theme),
        sanitized_close_action(sanitized_close_action(close_action)) == sanitized_close_action(
            close_action,
        ),
{
}

} // verus!
