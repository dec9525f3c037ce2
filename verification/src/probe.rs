//! Reading a runtime environment's version output: the command that prints it,
//! how its output is taken, and the display name derived from it.

use vstd::prelude::*;
use crate::model::{Env, EnvKind, EnvProbe};
use crate::text::{
    chars_of, owned, string_of, trim, trim_chars, signed_decimal, signed_decimal_string,
};
use crate::launcher::{java_exe, python_exe};
use crate::paths::join;
use crate::launcher::env_bin_dir;

verus! {

/// The index of the first `c` in `s`, or its length.
pub open spec fn index_of(s: Seq<char>, c: char) -> int
    decreases s.len(),
{
    if s.len() == 0 {
        0
    } else if s[0] == c {
        0
    } else {
        index_of(s.drop_first(), c) + 1
    }
}

/// Where `index_of` points: within bounds, at `c` when below the length, past every earlier character.
pub proof fn lemma_index_of_bound(s: Seq<char>, c: char)
    ensures
        0 <= index_of(s, c) <= s.len(),
        index_of(s, c) < s.len() ==> s[index_of(s, c)] == c,
        forall|j: int| 0 <= j < index_of(s, c) ==> s[j] != c,
    decreases s.len(),
{
    if s.len() > 0 && s[0] != c {
        lemma_index_of_bound(s.drop_first(), c);
        assert forall|j: int| 0 <= j < index_of(s, c) implies s[j] != c by {
            if j > 0 {
                assert(s[j] == s.drop_first()[j - 1]);
            }
        }
    }
}

/// The first line of `s` (lines end at `\n`) that is not blank, trimmed.
pub open spec fn first_filled_line(s: Seq<char>) -> Option<Seq<char>>
    decreases s.len(),
{
    let i = index_of(s, '\n');
    let line = trim(s.take(i));
    if line.len() > 0 {
        Some(line)
    } else if i >= s.len() {
        None
    } else {
        proof {
            lemma_index_of_bound(s, '\n');
        }
        first_filled_line(s.skip(i + 1))
    }
}

/// The display name an environment gets from its version output: for Java, `JDK` and
/// the version between the first pair of double quotes of the first non-blank line;
/// for Python, that line itself.
pub open spec fn env_name_from(kind: EnvKind, output: Seq<char>) -> Option<Seq<char>> {
    match first_filled_line(output) {
        None => None,
        Some(first) => match kind {
            EnvKind::Java => {
                let q1 = index_of(first, '"');
                let rest = first.skip(q1 + 1);
                let q2 = index_of(rest, '"');
                let raw = trim(rest.take(q2));
                if q1 >= first.len() || q2 >= rest.len() || raw.len() == 0 {
                    None
                } else {
                    Some("JDK "@ + raw)
                }
            },
            EnvKind::Python => Some(first),
            EnvKind::Unknown => None,
        },
    }
}

fn index_in(v: &[char], from: usize, c: char) -> (r: usize)
    requires
        from <= v.len(),
    ensures
        from <= r <= v.len(),
        r - from == index_of(v@.skip(from as int), c),
{
    let mut i: usize = from;
    proof {
        lemma_index_of_bound(v@.skip(from as int), c);
    }
    while i < v.len() && v[i] != c
        invariant
            from <= i <= v.len(),
            index_of(v@.skip(i as int), c) + (i - from) == index_of(v@.skip(from as int), c),
        decreases v.len() - i,
    {
        assert(v@.skip(i as int)[0] == v@[i as int]);
        assert(v@.skip(i as int).drop_first() == v@.skip(i + 1));
        i += 1;
    }
    i
}

fn chars_between(v: &[char], from: usize, to: usize) -> (r: Vec<char>)
    requires
        from <= to <= v.len(),
    ensures
        r@ == v@.subrange(from as int, to as int),
{
    let mut r: Vec<char> = Vec::new();
    let mut i: usize = from;
    while i < to
        invariant
            from <= i <= to <= v.len(),
            r@ == v@.subrange(from as int, i as int),
        decreases to - i,
    {
        r.push(v[i]);
        i += 1;
        assert(r@ == v@.subrange(from as int, i as int));
    }
    r
}

fn first_line(v: &[char]) -> (r: Option<Vec<char>>)
    ensures
        match r {
            Some(l) => first_filled_line(v@) == Some(l@),
            None => first_filled_line(v@) is None,
        },
{
    let mut pos: usize = 0;
    assert(v@.skip(0) == v@);
    loop
        invariant
            pos <= v.len(),
            first_filled_line(v@.skip(pos as int)) == first_filled_line(v@),
        decreases v.len() - pos,
    {
        let i = index_in(v, pos, '\n');
        let ghost s = v@.skip(pos as int);
        assert(s.take(i - pos) == v@.subrange(pos as int, i as int));
        let line = trim_chars(chars_between(v, pos, i).as_slice());
        if line.len() > 0 {
            return Some(line);
        }
        if i >= v.len() {
            return None;
        }
        assert(s.skip(i - pos + 1) == v@.skip(i + 1));
        pos = i + 1;
    }
}

/// The display name an environment gets from its version output (see `env_name_from`).
pub fn suggest_env_name(kind: EnvKind, output: &str) -> (r: Option<String>)
    ensures
        match r {
            Some(n) => env_name_from(kind, output@) == Some(n@),
            None => env_name_from(kind, output@) is None,
        },
{
    let v = chars_of(output);
    let first = match first_line(v.as_slice()) {
        Some(l) => l,
        None => return None,
    };
    match kind {
        EnvKind::Java => {
            let f = first.as_slice();
            let q1 = index_in(f, 0, '"');
            assert(f@.skip(0) == f@);
            if q1 >= f.len() {
                return None;
            }
            let q2 = index_in(f, q1 + 1, '"');
            let ghost rest = f@.skip(q1 + 1);
            if q2 >= f.len() {
                return None;
            }
            assert(rest.take(q2 - (q1 + 1)) == f@.subrange(q1 + 1, q2 as int));
            let raw = trim_chars(chars_between(f, q1 + 1, q2).as_slice());
            if raw.len() == 0 {
                return None;
            }
            let mut n = owned("JDK ");
            let r = string_of(raw.as_slice());
            n.append(r.as_str());
            Some(n)
        },
        EnvKind::Python => Some(string_of(first.as_slice())),
        EnvKind::Unknown => None,
    }
}

/// The executable and the flag that print an environment's version: `java -version`
/// or `python --version`.
pub open spec fn version_command_of(env: Env) -> Result<(Seq<char>, Seq<char>), Seq<char>> {
    match env.kind {
        EnvKind::Java => Ok((join(env_bin_dir(env), "java.exe"@), "-version"@)),
        EnvKind::Python => Ok((join(env_bin_dir(env), "python.exe"@), "--version"@)),
        EnvKind::Unknown => Err("未知的环境类型（可能由更高版本创建）"@),
    }
}

/// The executable and the flag that print an environment's version (see `version_command_of`).
pub fn version_command(env: &Env) -> (r: Result<(String, String), String>)
    ensures
        match r {
            Ok((exe, flag)) => version_command_of(*env) == Ok::<(Seq<char>, Seq<char>), Seq<char>>(
                (exe@, flag@),
            ),
            Err(m) => version_command_of(*env) == Err::<(Seq<char>, Seq<char>), Seq<char>>(m@),
        },
{
    match env.kind {
        EnvKind::Java => Ok((java_exe(env), owned("-version"))),
        EnvKind::Python => Ok((python_exe(env), owned("--version"))),
        EnvKind::Unknown => Err(owned("未知的环境类型（可能由更高版本创建）")),
    }
}

/// `{:?}` of an exit code.
pub open spec fn exit_code_debug(code: Option<i32>) -> Seq<char> {
    match code {
        Some(c) => "Some("@ + signed_decimal(c as int) + ")"@,
        None => "None"@,
    }
}

/// What a version command reports: its trimmed standard output, or its trimmed error
/// output when the standard output is blank; a failure with no output names the exit code.
pub open spec fn version_report(stdout: Seq<char>, stderr: Seq<char>, success: bool, code: Option<i32>) -> Result<Seq<char>, Seq<char>> {
    let text = if trim(stdout).len() == 0 {
        trim(stderr)
    } else {
        trim(stdout)
    };
    if success {
        Ok(text)
    } else if text.len() == 0 {
        Err("执行失败（退出码 "@ + exit_code_debug(code) + "）"@)
    } else {
        Err(text)
    }
}

/// Takes the output of a version command (see `version_report`).
pub fn version_outcome(stdout: &str, stderr: &str, success: bool, code: Option<i32>) -> (r: Result<String, String>)
    ensures
        match r {
            Ok(t) => version_report(stdout@, stderr@, success, code) == Ok::<Seq<char>, Seq<char>>(t@),
            Err(m) => version_report(stdout@, stderr@, success, code) == Err::<Seq<char>, Seq<char>>(m@),
        },
{
    let o = chars_of(stdout);
    let e = chars_of(stderr);
    let ot = trim_chars(o.as_slice());
    let text = if ot.len() == 0 {
        trim_chars(e.as_slice())
    } else {
        ot
    };
    assert(text@ == (if trim(stdout@).len() == 0 {
        trim(stderr@)
    } else {
        trim(stdout@)
    }));
    if success {
        Ok(string_of(text.as_slice()))
    } else if text.len() == 0 {
        let mut m = owned("执行失败（退出码 ");
        match code {
            Some(c) => {
                m.append("Some(");
                let d = signed_decimal_string(c as i64);
                m.append(d.as_str());
                m.append(")");
            },
            None => {
                m.append("None");
            },
        }
        m.append("）");
        assert(m@ == "执行失败（退出码 "@ + exit_code_debug(code) + "）"@);
        Err(m)
    } else {
        Err(string_of(text.as_slice()))
    }
}

/// The outcome of probing a directory as an environment, given its version report.
pub open spec fn probe_outcome(kind: EnvKind, detail: Seq<char>) -> Result<Seq<char>, Seq<char>> {
    match env_name_from(kind, detail) {
        Some(n) => Ok(n),
        None => Err("无法从版本信息中识别环境名称："@ + detail),
    }
}

/// The suggested name of a probed environment, or why none can be derived.
pub fn probe_name(kind: EnvKind, detail: &str) -> (r: Result<EnvProbe, String>)
    ensures
        match r {
            Ok(p) => probe_outcome(kind, detail@) == Ok::<Seq<char>, Seq<char>>(p.name@),
            Err(m) => probe_outcome(kind, detail@) == Err::<Seq<char>, Seq<char>>(m@),
        },
{
    match suggest_env_name(kind, detail) {
        Some(name) => Ok(EnvProbe { name }),
        None => {
            let mut m = owned("无法从版本信息中识别环境名称：");
            m.append(detail);
            Err(m)
        },
    }
}

} // verus!
