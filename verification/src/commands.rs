//! The decisions behind the user interface's commands: finding a tool by id, the
//! status of each tool card, and whether a file may be imported.

use vstd::prelude::*;
use crate::model::{CheckResult, Config, Tool};
use crate::launcher::{check_tool, check_tool_with, tool_issue};
use crate::paths::{file_ext, lower_extension};
use crate::text::{decimal, decimal_string, owned, str_eq};

verus! {

/// The first tool whose id is `id`.
pub open spec fn find_tool_of(tools: Seq<Tool>, id: Seq<char>) -> Option<Tool>
    decreases tools.len(),
{
    if tools.len() == 0 {
        None
    } else if tools[0].id@ == id {
        Some(tools[0])
    } else {
        find_tool_of(tools.drop_first(), id)
    }
}

/// The first tool whose id is `id` (see `find_tool_of`).
pub fn find_tool<'a>(config: &'a Config, id: &str) -> (r: Option<&'a Tool>)
    ensures
        match r {
            Some(t) => find_tool_of(config.tools@, id@) == Some(*t),
            None => find_tool_of(config.tools@, id@) is None,
        },
{
    let tools = &config.tools;
    let ghost all = tools@;
    let mut i: usize = 0;
    assert(all.skip(0) == all);
    while i < tools.len()
        invariant
            i <= tools.len(),
            all == tools@,
            all == config.tools@,
            find_tool_of(all.skip(i as int), id@) == find_tool_of(all, id@),
        decreases tools.len() - i,
    {
        assert(all.skip(i as int)[0] == all[i as int]);
        assert(all.skip(i as int).len() > 0);
        if str_eq(tools[i].id.as_str(), id) {
            return Some(&tools[i]);
        }
        assert(all.skip(i as int).drop_first() == all.skip(i + 1));
        i += 1;
    }
    None
}

/// The message when a command names a tool that does not exist.
pub fn unknown_tool_message() -> (m: String)
    ensures
        m@ == "工具不存在"@,
{
    owned("工具不存在")
}

/// A card status that reports the outcome of a check.
pub open spec fn reports(issue: Option<Seq<char>>, c: CheckResult) -> bool {
    match issue {
        None => c.ok && c.missing@ == Seq::<char>::empty(),
        Some(m) => !c.ok && c.missing@ == m,
    }
}

/// The status of a tool card, given what the disk says of its target and its launch
/// executable (see `tool_issue`).
pub fn tool_status_with(tool: &Tool, config: &Config, target_is_file: bool, exe_is_file: bool) -> (c: CheckResult)
    ensures
        reports(tool_issue(*tool, *config, target_is_file, exe_is_file), c),
{
    match check_tool_with(tool, config, target_is_file, exe_is_file) {
        Ok(()) => CheckResult { ok: true, missing: String::new() },
        Err(missing) => CheckResult { ok: false, missing },
    }
}

/// The status of every tool card, with its id, in order; each status is what
/// `tool_issue` gives for what the disk said of that tool's files.
pub fn tools_status(config: &Config) -> (r: Vec<(String, CheckResult)>)
    ensures
        r@.len() == config.tools@.len(),
        forall|i: int|
            0 <= i < r@.len() ==> (#[trigger] r@[i]).0@ == config.tools@[i].id@ && exists|
                tf: bool,
                ef: bool,
            | reports(#[trigger] tool_issue(config.tools@[i], *config, tf, ef), r@[i].1),
{
    let mut r: Vec<(String, CheckResult)> = Vec::new();
    let mut i: usize = 0;
    while i < config.tools.len()
        invariant
            i <= config.tools.len(),
            r@.len() == i,
            forall|j: int|
                0 <= j < i ==> (#[trigger] r@[j]).0@ == config.tools@[j].id@ && exists|
                    tf: bool,
                    ef: bool,
                | reports(#[trigger] tool_issue(config.tools@[j], *config, tf, ef), r@[j].1),
        decreases config.tools.len() - i,
    {
        let t = &config.tools[i];
        let res = check_tool(t, config);
        let ghost o = crate::text::outcome(res);
        let c = match res {
            Ok(()) => CheckResult { ok: true, missing: String::new() },
            Err(missing) => CheckResult { ok: false, missing },
        };
        proof {
            let (tf, ef) = choose|tf: bool, ef: bool| o == tool_issue(*t, *config, tf, ef);
            assert(reports(tool_issue(*t, *config, tf, ef), c));
        }
        let ghost old_r = r@;
        r.push((t.id.clone(), c));
        assert(forall|j: int| 0 <= j < i ==> r@[j] == old_r[j]);
        i += 1;
    }
    r
}

/// The largest configuration file an import reads.
pub const IMPORT_MAX_BYTES: u64 = 4194304;

/// Why a file may not be imported: not a regular file, larger than `IMPORT_MAX_BYTES`,
/// or without the `.json` extension (in any letter case).
pub open spec fn import_file_issue(is_file: bool, len: u64, path: Seq<char>) -> Option<Seq<char>> {
    if !is_file {
        Some("请选择一个配置文件（不是目录）"@)
    } else if len > IMPORT_MAX_BYTES {
        Some("文件过大（"@ + decimal(len as nat) + " 字节），配置文件不应超过 "@ + decimal(
            IMPORT_MAX_BYTES as nat,
        ) + " 字节"@)
    } else if lower_extension(path) != "json"@ {
        Some("只接受 .json 配置文件，当前是 ."@ + lower_extension(path))
    } else {
        None
    }
}

/// Checks a file before it is imported (see `import_file_issue`); `is_file` and `len`
/// are what the file's metadata says.
pub fn check_import_file(is_file: bool, len: u64, path: &str) -> (r: Result<(), String>)
    ensures
        crate::text::outcome(r) == import_file_issue(is_file, len, path@),
{
    if !is_file {
        return Err(owned("请选择一个配置文件（不是目录）"));
    }
    if len > IMPORT_MAX_BYTES {
        let mut m = owned("文件过大（");
        let n = decimal_string(len);
        m.append(n.as_str());
        m.append(" 字节），配置文件不应超过 ");
        let x = decimal_string(IMPORT_MAX_BYTES);
        m.append(x.as_str());
        m.append(" 字节");
        return Err(m);
    }
    let ext = file_ext(path);
    if !str_eq(ext.as_str(), "json") {
        let mut m = owned("只接受 .json 配置文件，当前是 .");
        m.append(ext.as_str());
        return Err(m);
    }
    Ok(())
}

} // verus!
