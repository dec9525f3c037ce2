//! Splitting a tool's argument string into tokens, ordering Java arguments,
//! and quoting tokens by the Windows command-line rules.

use vstd::prelude::*;
use crate::text::{chars_of, string_of, push_char, chars_eq_str, chars_start_with_str, has_prefix, str_eq};

verus! {

/// The state of the splitter after a prefix of the input:
/// (finished tokens, current token, inside quotes, current token started).
pub type SplitState = (Seq<Seq<char>>, Seq<char>, bool, bool);

/// One step of the splitter: a double quote toggles quoting and starts a token,
/// an unquoted space or tab ends the current token, anything else is token content.
pub open spec fn split_step(st: SplitState, c: char) -> SplitState {
    if c == '"' {
        (st.0, st.1, !st.2, true)
    } else if (c == ' ' || c == '\t') && !st.2 {
        if st.3 {
            (st.0.push(st.1), Seq::empty(), st.2, false)
        } else {
            st
        }
    } else {
        (st.0, st.1.push(c), st.2, true)
    }
}

/// The splitter's state after reading all of `s`.
pub open spec fn split_run(s: Seq<char>) -> SplitState
    decreases s.len(),
{
    if s.len() == 0 {
        (Seq::empty(), Seq::empty(), false, false)
    } else {
        split_step(split_run(s.drop_last()), s.last())
    }
}

/// The tokens of `s`: split at unquoted spaces and tabs, with double quotes
/// grouping text into one token and removed from it.
pub open spec fn split_words(s: Seq<char>) -> Seq<Seq<char>> {
    let st = split_run(s);
    if st.3 {
        st.0.push(st.1)
    } else {
        st.0
    }
}

/// The views of a vector of strings.
pub open spec fn views(v: Seq<String>) -> Seq<Seq<char>> {
    v.map_values(|s: String| s@)
}

/// Splits an argument string into tokens (see `split_words`).
pub fn split_args(s: &str) -> (out: Vec<String>)
    ensures
        views(out@) == split_words(s@),
{
    let v = chars_of(s);
    let mut out: Vec<String> = Vec::new();
    let mut cur: Vec<char> = Vec::new();
    let mut in_quotes = false;
    let mut has_token = false;
    let mut i: usize = 0;
    while i < v.len()
        invariant
            i <= v.len(),
            v@ == s@,
            split_run(v@.take(i as int)) == (views(out@), cur@, in_quotes, has_token),
        decreases v.len() - i,
    {
        let c = v[i];
        assert(v@.take(i + 1).drop_last() == v@.take(i as int));
        if c == '"' {
            in_quotes = !in_quotes;
            has_token = true;
        } else if (c == ' ' || c == '\t') && !in_quotes {
            if has_token {
                out.push(string_of(cur.as_slice()));
                cur = Vec::new();
                has_token = false;
                assert(views(out@) == split_run(v@.take(i as int)).0.push(
                    split_run(v@.take(i as int)).1,
                ));
            }
        } else {
            cur.push(c);
            has_token = true;
        }
        i += 1;
    }
    assert(v@.take(v.len() as int) == v@);
    if has_token {
        out.push(string_of(cur.as_slice()));
        assert(views(out@) == split_run(v@).0.push(split_run(v@).1));
    }
    out
}

/// A conservative whitelist of JVM launch options, so that program options
/// such as `--port` are not taken for JVM options.
pub open spec fn jvm_option(t: Seq<char>) -> bool {
    ||| has_prefix(t, "-X"@)
    ||| has_prefix(t, "-D"@)
    ||| has_prefix(t, "--add-"@)
    ||| has_prefix(t, "--enable-"@)
    ||| has_prefix(t, "--disable-"@)
    ||| t == "-ea"@ || t == "-da"@ || t == "-esa"@ || t == "-dsa"@
    ||| t == "-server"@ || t == "-client"@ || t == "-verbose"@ || t == "-version"@
}

/// Whether `t` is a JVM launch option (see `jvm_option`).
pub fn is_jvm_arg(t: &str) -> (b: bool)
    ensures
        b == jvm_option(t@),
{
    let v = chars_of(t);
    let s = v.as_slice();
    chars_start_with_str(s, "-X") || chars_start_with_str(s, "-D") || chars_start_with_str(
        s,
        "--add-",
    ) || chars_start_with_str(s, "--enable-") || chars_start_with_str(s, "--disable-")
        || chars_eq_str(s, "-ea") || chars_eq_str(s, "-da") || chars_eq_str(s, "-esa")
        || chars_eq_str(s, "-dsa") || chars_eq_str(s, "-server") || chars_eq_str(s, "-client")
        || chars_eq_str(s, "-verbose") || chars_eq_str(s, "-version")
}

/// The state of the Java argument sorter after a prefix of the tokens:
/// (JVM options, program arguments, still reading JVM options, drop the next token).
pub type JavaState = (Seq<Seq<char>>, Seq<Seq<char>>, bool, bool);

/// One step of the sorter: leading JVM options go first; the first other token ends
/// them; a `-jar` among the rest is dropped together with the token after it.
pub open spec fn java_step(st: JavaState, t: Seq<char>) -> JavaState {
    if st.3 {
        (st.0, st.1, st.2, false)
    } else if st.2 && jvm_option(t) {
        (st.0.push(t), st.1, st.2, st.3)
    } else if t == "-jar"@ {
        (st.0, st.1, false, true)
    } else {
        (st.0, st.1.push(t), false, false)
    }
}

/// The sorter's state after all of `ts`.
pub open spec fn java_run(ts: Seq<Seq<char>>) -> JavaState
    decreases ts.len(),
{
    if ts.len() == 0 {
        (Seq::empty(), Seq::empty(), true, false)
    } else {
        java_step(java_run(ts.drop_last()), ts.last())
    }
}

/// The JVM options and the program arguments of an argument string.
pub open spec fn java_split(s: Seq<char>) -> (Seq<Seq<char>>, Seq<Seq<char>>) {
    let st = java_run(split_words(s));
    (st.0, st.1)
}

/// Splits a Java tool's arguments into JVM options (placed before `-jar`) and
/// program arguments (see `java_step`).
pub fn split_java_args(args: &str) -> (r: (Vec<String>, Vec<String>))
    ensures
        (views(r.0@), views(r.1@)) == java_split(args@),
{
    let tokens = split_args(args);
    let mut jvm: Vec<String> = Vec::new();
    let mut rest: Vec<String> = Vec::new();
    let mut in_jvm = true;
    let mut skip_next = false;
    let ghost ts = views(tokens@);
    for t in it: tokens.into_iter()
        invariant
            ts == views(it.seq()),
            java_run(ts.take(it.index())) == (views(jvm@), views(rest@), in_jvm, skip_next),
    {
        proof {
            let k = it.index();
            assert(ts.take(k + 1).drop_last() == ts.take(k));
            assert(ts.take(k + 1).last() == t@);
        }
        if skip_next {
            skip_next = false;
        } else if in_jvm && is_jvm_arg(t.as_str()) {
            jvm.push(t);
            assert(views(jvm@) == java_run(ts.take(it.index())).0.push(ts[it.index()]));
        } else {
            in_jvm = false;
            if str_eq(t.as_str(), "-jar") {
                skip_next = true;
            } else {
                rest.push(t);
                assert(views(rest@) == java_run(ts.take(it.index())).1.push(ts[it.index()]));
            }
        }
    }
    assert(ts.take(ts.len() as int) == ts);
    (jvm, rest)
}

/// `n` backslashes.
pub open spec fn backslashes(n: nat) -> Seq<char> {
    Seq::new(n, |i: int| '\\')
}

/// How many backslashes `s` ends with.
pub open spec fn trailing_backslashes(s: Seq<char>) -> nat
    decreases s.len(),
{
    if s.len() > 0 && s.last() == '\\' {
        trailing_backslashes(s.drop_last()) + 1
    } else {
        0
    }
}

/// The body of a quoted argument: every double quote is escaped by a backslash,
/// and the backslashes right before it are doubled.
pub open spec fn escape_quoted(s: Seq<char>) -> Seq<char>
    decreases s.len(),
{
    if s.len() == 0 {
        Seq::empty()
    } else if s.last() == '"' {
        escape_quoted(s.drop_last()) + backslashes(trailing_backslashes(s.drop_last())) + seq![
            '\\',
            '"',
        ]
    } else {
        escape_quoted(s.drop_last()).push(s.last())
    }
}

/// `s` in double quotes, escaped so that the argv rules read it back unchanged;
/// backslashes before the closing quote are doubled.
pub open spec fn quoted(s: Seq<char>) -> Seq<char> {
    seq!['"'] + escape_quoted(s) + backslashes(trailing_backslashes(s)) + seq!['"']
}

/// An argument that cannot be passed bare: empty, or holding a space, tab or double quote.
pub open spec fn needs_quotes(s: Seq<char>) -> bool {
    s.len() == 0 || s.contains(' ') || s.contains('\t') || s.contains('"')
}

/// `s` as one command-line token: quoted when `force` or when it needs quotes, else bare.
pub open spec fn quote_token(s: Seq<char>, force: bool) -> Seq<char> {
    if !force && !needs_quotes(s) {
        s
    } else {
        quoted(s)
    }
}

fn push_backslashes(out: &mut String, n: usize)
    ensures
        final(out)@ == old(out)@ + backslashes(n as nat),
{
    let ghost start = out@;
    let mut j: usize = 0;
    while j < n
        invariant
            j <= n,
            out@ == start + backslashes(j as nat),
        decreases n - j,
    {
        push_char(out, '\\');
        j += 1;
        assert(backslashes(j as nat) == backslashes((j - 1) as nat).push('\\'));
    }
}

/// Quotes one argument by the Windows argv rules: always when `force`, else only where
/// needed (see `quote_token`).
pub fn quote_arg(arg: &str, force: bool) -> (r: String)
    ensures
        r@ == quote_token(arg@, force),
{
    let v = chars_of(arg);
    let mut needs = v.len() == 0;
    let mut k: usize = 0;
    while k < v.len()
        invariant
            k <= v.len(),
            needs == (v@.len() == 0 || exists|j: int|
                0 <= j < k && (v@[j] == ' ' || v@[j] == '\t' || v@[j] == '"')),
        decreases v.len() - k,
    {
        if v[k] == ' ' || v[k] == '\t' || v[k] == '"' {
            needs = true;
        }
        k += 1;
    }
    assert(needs == needs_quotes(v@)) by {
        if needs && v@.len() > 0 {
            let j = choose|j: int| 0 <= j < v@.len() && (v@[j] == ' ' || v@[j] == '\t' || v@[j] == '"');
            assert(v@.contains(v@[j]));
        }
        if v@.contains(' ') {
            let j = choose|j: int| 0 <= j < v@.len() && v@[j] == ' ';
            assert(v@[j] == ' ');
        }
        if v@.contains('\t') {
            let j = choose|j: int| 0 <= j < v@.len() && v@[j] == '\t';
            assert(v@[j] == '\t');
        }
        if v@.contains('"') {
            let j = choose|j: int| 0 <= j < v@.len() && v@[j] == '"';
            assert(v@[j] == '"');
        }
    }
    if !force && !needs {
        return string_of(v.as_slice());
    }
    let mut out = String::new();
    push_char(&mut out, '"');
    let mut bs: usize = 0;
    let mut i: usize = 0;
    while i < v.len()
        invariant
            i <= v.len(),
            bs <= i,
            out@ == seq!['"'] + escape_quoted(v@.take(i as int)),
            bs == trailing_backslashes(v@.take(i as int)),
        decreases v.len() - i,
    {
        let c = v[i];
        assert(v@.take(i + 1).drop_last() == v@.take(i as int));
        if c == '\\' {
            bs += 1;
            push_char(&mut out, '\\');
        } else if c == '"' {
            push_backslashes(&mut out, bs);
            bs = 0;
            push_char(&mut out, '\\');
            push_char(&mut out, '"');
            assert(out@ == seq!['"'] + escape_quoted(v@.take(i as int)) + backslashes(
                trailing_backslashes(v@.take(i as int)),
            ) + seq!['\\', '"']);
        } else {
            bs = 0;
            push_char(&mut out, c);
        }
        i += 1;
    }
    assert(v@.take(v.len() as int) == v@);
    push_backslashes(&mut out, bs);
    push_char(&mut out, '"');
    out
}

/// Quotes one argument by the Windows argv rules (`CommandLineToArgvW`), only where
/// it needs quotes.
pub fn quote_windows_arg(arg: &str) -> (r: String)
    ensures
        r@ == quote_token(arg@, false),
{
    quote_arg(arg, false)
}

/// Quotes one argument by the Windows argv rules, always: inside quotes the command
/// interpreter takes `& | < > ^` as plain content.
pub fn quote_windows_arg_forced(arg: &str) -> (r: String)
    ensures
        r@ == quote_token(arg@, true),
{
    quote_arg(arg, true)
}

/// The tokens, each quoted where needed, separated by single spaces.
pub open spec fn joined_tokens(args: Seq<Seq<char>>) -> Seq<char>
    decreases args.len(),
{
    if args.len() == 0 {
        Seq::empty()
    } else if args.len() == 1 {
        quote_token(args[0], false)
    } else {
        joined_tokens(args.drop_last()) + seq![' '] + quote_token(args.last(), false)
    }
}

/// Joins arguments into one command-line string, quoting each where needed.
pub fn join_windows_args(args: &[String]) -> (r: String)
    ensures
        r@ == joined_tokens(views(args@)),
{
    let ghost a = views(args@);
    let mut out = String::new();
    let mut i: usize = 0;
    while i < args.len()
        invariant
            i <= args.len(),
            a == views(args@),
            out@ == joined_tokens(a.take(i as int)),
        decreases args.len() - i,
    {
        assert(a.take(i + 1).drop_last() == a.take(i as int));
        if i > 0 {
            push_char(&mut out, ' ');
        }
        let q = quote_windows_arg(args[i].as_str());
        out.append(q.as_str());
        i += 1;
    }
    assert(a.take(args.len() as int) == a);
    out
}

} // verus!
