//! Bringing a configuration from outside (an import, a hand edit) into shape:
//! unique non-empty ids, references that resolve, path fields that may go into a
//! command line.

use vstd::prelude::*;
use crate::model::{Config, Env, Group, Tool, sanitized_theme, sanitized_close_action};
use crate::launcher::{check_env_path, path_issue};
use crate::text::{chars_of, decimal, decimal_string, owned};
use crate::args::views;

verus! {

/// An entry that carries an id.
pub trait Keyed: Sized {
    /// The entry's id.
    spec fn key(&self) -> Seq<char>;

    /// The entry's id.
    fn key_ref(&self) -> (r: &String)
        ensures
            r@ == self.key(),
    ;
}

impl Keyed for Env {
    open spec fn key(&self) -> Seq<char> {
        self.id@
    }

    fn key_ref(&self) -> (r: &String) {
        &self.id
    }
}

impl Keyed for Group {
    open spec fn key(&self) -> Seq<char> {
        self.id@
    }

    fn key_ref(&self) -> (r: &String) {
        &self.id
    }
}

impl Keyed for Tool {
    open spec fn key(&self) -> Seq<char> {
        self.id@
    }

    fn key_ref(&self) -> (r: &String) {
        &self.id
    }
}

/// The ids of the entries, in order.
pub open spec fn keys<T: Keyed>(s: Seq<T>) -> Seq<Seq<char>> {
    s.map_values(|x: T| x.key())
}

/// The entries kept from `s`, in order: each one whose id is non-empty and not the
/// id of an entry kept before it.
pub open spec fn first_by_id<T: Keyed>(s: Seq<T>) -> Seq<T>
    decreases s.len(),
{
    if s.len() == 0 {
        Seq::empty()
    } else {
        let prev = first_by_id(s.drop_last());
        let k = s.last().key();
        if k.len() > 0 && !keys(prev).contains(k) {
            prev.push(s.last())
        } else {
            prev
        }
    }
}

/// Every id is non-empty and no two entries share one.
pub open spec fn ids_unique<T: Keyed>(s: Seq<T>) -> bool {
    &&& forall|i: int| 0 <= i < s.len() ==> (#[trigger] s[i]).key().len() > 0
    &&& forall|i: int, j: int| 0 <= i < j < s.len() ==> (#[trigger] s[i]).key() != (#[trigger] s[j]).key()
}

/// A reference kept when it names a known id, dropped otherwise.
pub open spec fn resolved(r: Option<String>, ids: Seq<Seq<char>>) -> Option<String> {
    match r {
        Some(x) => if ids.contains(x@) {
            r
        } else {
            None
        },
        None => None,
    }
}

/// A tool whose environment and group references are cleared where they name no
/// known environment or group.
pub open spec fn fix_refs(t: Tool, env_ids: Seq<Seq<char>>, group_ids: Seq<Seq<char>>) -> Tool {
    Tool { env_id: resolved(t.env_id, env_ids), group_id: resolved(t.group_id, group_ids), ..t }
}

/// `fix_refs` on every tool.
pub open spec fn fixed_tools(tools: Seq<Tool>, env_ids: Seq<Seq<char>>, group_ids: Seq<Seq<char>>) -> Seq<Tool> {
    tools.map_values(|t: Tool| fix_refs(t, env_ids, group_ids))
}

/// A reference that names no known id.
pub open spec fn dangles(r: Option<String>, ids: Seq<Seq<char>>) -> bool {
    r matches Some(x) && !ids.contains(x@)
}

/// How many tools have a dangling environment reference.
pub open spec fn dangling_envs(tools: Seq<Tool>, ids: Seq<Seq<char>>) -> nat
    decreases tools.len(),
{
    if tools.len() == 0 {
        0
    } else {
        dangling_envs(tools.drop_last(), ids) + if dangles(tools.last().env_id, ids) {
            1nat
        } else {
            0nat
        }
    }
}

/// How many tools have a dangling group reference.
pub open spec fn dangling_groups(tools: Seq<Tool>, ids: Seq<Seq<char>>) -> nat
    decreases tools.len(),
{
    if tools.len() == 0 {
        0
    } else {
        dangling_groups(tools.drop_last(), ids) + if dangles(tools.last().group_id, ids) {
            1nat
        } else {
            0nat
        }
    }
}

/// A one-line note when `n` is positive, else nothing.
pub open spec fn note_if(n: nat, note: Seq<char>) -> Seq<Seq<char>> {
    if n > 0 {
        seq![note]
    } else {
        Seq::empty()
    }
}

/// The notes that `normalize` reports: how many environments, groups and tools were
/// dropped, and how many tools lost an environment or a group reference.
pub open spec fn normalize_notes(
    envs_dropped: nat,
    groups_dropped: nat,
    tools_dropped: nat,
    envs_dangling: nat,
    groups_dangling: nat,
) -> Seq<Seq<char>> {
    note_if(envs_dropped, "已忽略 "@ + decimal(envs_dropped) + " 个 id 重复或为空的运行环境"@)
        + note_if(groups_dropped, "已忽略 "@ + decimal(groups_dropped) + " 个 id 重复或为空的分组"@)
        + note_if(tools_dropped, "已忽略 "@ + decimal(tools_dropped) + " 个 id 重复或为空的工具"@)
        + note_if(envs_dangling, decimal(envs_dangling)
            + " 个工具绑定的运行环境不存在，已清除绑定（这些工具需重新选择环境）"@)
        + note_if(groups_dangling, decimal(groups_dangling) + " 个工具所属的分组不存在，已移入「未分组」"@)
}

fn contains_id(ids: &Vec<String>, k: &String) -> (b: bool)
    ensures
        b == views(ids@).contains(k@),
{
    let mut i: usize = 0;
    while i < ids.len()
        invariant
            i <= ids.len(),
            forall|j: int| 0 <= j < i ==> ids@[j]@ != k@,
        decreases ids.len() - i,
    {
        if ids[i] == *k {
            assert(views(ids@)[i as int] == k@);
            return true;
        }
        i += 1;
    }
    assert(!views(ids@).contains(k@)) by {
        if views(ids@).contains(k@) {
            let j = choose|j: int| 0 <= j < views(ids@).len() && views(ids@)[j] == k@;
            assert(ids@[j]@ == k@);
        }
    }
    false
}

/// Keeps the first entry of each non-empty id (see `first_by_id`); also hands back
/// the kept ids.
fn keep_first_by_id<T: Keyed>(items: Vec<T>) -> (r: (Vec<T>, Vec<String>))
    ensures
        r.0@ == first_by_id(items@),
        views(r.1@) == keys(r.0@),
{
    let ghost all = items@;
    let mut kept: Vec<T> = Vec::new();
    let mut ids: Vec<String> = Vec::new();
    for x in it: items.into_iter()
        invariant
            all == it.seq(),
            kept@ == first_by_id(all.take(it.index())),
            views(ids@) == keys(kept@),
    {
        let ghost i = it.index();
        assert(all.take(i + 1).drop_last() == all.take(i));
        assert(all.take(i + 1).last() == x);
        let k = x.key_ref().clone();
        let kv = chars_of(k.as_str());
        if kv.len() > 0 && !contains_id(&ids, &k) {
            let ghost old_ids = views(ids@);
            let ghost old_kept = kept@;
            ids.push(k);
            kept.push(x);
            assert(views(ids@) =~= old_ids.push(x.key()));
            assert(keys(kept@) =~= keys(old_kept).push(x.key()));
        }
    }
    assert(all.take(all.len() as int) == all);
    (kept, ids)
}

/// Clears a reference that names none of `ids`; tells whether it did.
fn resolve_ref(r: &mut Option<String>, ids: &Vec<String>) -> (cleared: bool)
    ensures
        *final(r) == resolved(*old(r), views(ids@)),
        cleared == dangles(*old(r), views(ids@)),
{
    let keep = match r {
        Some(x) => contains_id(ids, x),
        None => true,
    };
    if !keep {
        *r = None;
    }
    !keep
}

impl Config {
    /// Brings the references into shape: drops environments, groups and tools whose id is
    /// empty or repeats an earlier one, clears tool references to environments and groups
    /// that do not exist, and reports each correction as a note (see `normalize_notes`).
    pub fn normalize(&mut self) -> (notes: Vec<String>)
        ensures
            final(self).version == old(self).version,
            final(self).settings == old(self).settings,
            final(self).envs@ == first_by_id(old(self).envs@),
            final(self).groups@ == first_by_id(old(self).groups@),
            final(self).tools@ == fixed_tools(
                first_by_id(old(self).tools@),
                keys(first_by_id(old(self).envs@)),
                keys(first_by_id(old(self).groups@)),
            ),
            views(notes@) == normalize_notes(
                (old(self).envs@.len() - first_by_id(old(self).envs@).len()) as nat,
                (old(self).groups@.len() - first_by_id(old(self).groups@).len()) as nat,
                (old(self).tools@.len() - first_by_id(old(self).tools@).len()) as nat,
                dangling_envs(first_by_id(old(self).tools@), keys(first_by_id(old(self).envs@))),
                dangling_groups(
                    first_by_id(old(self).tools@),
                    keys(first_by_id(old(self).groups@)),
                ),
            ),
    {
        proof {
            lemma_first_by_id_len(self.envs@);
            lemma_first_by_id_len(self.groups@);
            lemma_first_by_id_len(self.tools@);
        }
        let mut notes: Vec<String> = Vec::new();
        let envs_before = self.envs.len();
        let mut envs: Vec<_> = Vec::new();
        std::mem::swap(&mut envs, &mut self.envs);
        let (envs, env_ids) = keep_first_by_id(envs);
        self.envs = envs;
        let groups_before = self.groups.len();
        let mut groups: Vec<_> = Vec::new();
        std::mem::swap(&mut groups, &mut self.groups);
        let (groups, group_ids) = keep_first_by_id(groups);
        self.groups = groups;
        let tools_before = self.tools.len();
        let mut tools: Vec<_> = Vec::new();
        std::mem::swap(&mut tools, &mut self.tools);
        let (tools, _tool_ids) = keep_first_by_id(tools);
        let ghost kept_tools = tools@;
        let ghost note_list = normalize_notes(
            (envs_before - self.envs@.len()) as nat,
            (groups_before - self.groups@.len()) as nat,
            (tools_before - kept_tools.len()) as nat,
            dangling_envs(kept_tools, views(env_ids@)),
            dangling_groups(kept_tools, views(group_ids@)),
        );
        let tools_after = tools.len();
        if self.envs.len() != envs_before {
            let mut m = owned("已忽略 ");
            let d = decimal_string((envs_before - self.envs.len()) as u64);
            m.append(d.as_str());
            m.append(" 个 id 重复或为空的运行环境");
            notes.push(m);
        }
        if self.groups.len() != groups_before {
            let mut m = owned("已忽略 ");
            let d = decimal_string((groups_before - self.groups.len()) as u64);
            m.append(d.as_str());
            m.append(" 个 id 重复或为空的分组");
            notes.push(m);
        }
        if tools_after != tools_before {
            let mut m = owned("已忽略 ");
            let d = decimal_string((tools_before - tools_after) as u64);
            m.append(d.as_str());
            m.append(" 个 id 重复或为空的工具");
            notes.push(m);
        }
        let ghost first_notes = views(notes@);
        let mut fixed: Vec<Tool> = Vec::new();
        let mut dangling_env: usize = 0;
        let mut dangling_group: usize = 0;
        for t in it: tools.into_iter()
            invariant
                kept_tools == it.seq(),
                fixed@ == fixed_tools(kept_tools.take(it.index()), views(env_ids@), views(group_ids@)),
                dangling_env == dangling_envs(kept_tools.take(it.index()), views(env_ids@)),
                dangling_group == dangling_groups(kept_tools.take(it.index()), views(group_ids@)),
                dangling_env <= it.index(),
                dangling_group <= it.index(),
                it.index() <= kept_tools.len(),
                kept_tools.len() <= usize::MAX,
        {
            let ghost i = it.index();
            assert(kept_tools.take(i + 1).drop_last() == kept_tools.take(i));
            assert(kept_tools.take(i + 1).last() == t);
            let mut t = t;
            if resolve_ref(&mut t.env_id, &env_ids) {
                dangling_env += 1;
            }
            if resolve_ref(&mut t.group_id, &group_ids) {
                dangling_group += 1;
            }
            let ghost old_fixed = fixed@;
            fixed.push(t);
            assert(fixed_tools(kept_tools.take(i + 1), views(env_ids@), views(group_ids@)) =~= fixed_tools(kept_tools.take(i), views(env_ids@), views(group_ids@)).push(fix_refs(kept_tools[i], views(env_ids@), views(group_ids@))));
            assert(fixed@ == fixed_tools(kept_tools.take(i + 1), views(env_ids@), views(group_ids@)));
        }
        assert(kept_tools.take(kept_tools.len() as int) == kept_tools);
        self.tools = fixed;
        if dangling_env > 0 {
            let mut m = decimal_string(dangling_env as u64);
            m.append(" 个工具绑定的运行环境不存在，已清除绑定（这些工具需重新选择环境）");
            notes.push(m);
        }
        if dangling_group > 0 {
            let mut m = decimal_string(dangling_group as u64);
            m.append(" 个工具所属的分组不存在，已移入「未分组」");
            notes.push(m);
        }
        assert(views(notes@) == note_list);
        notes
    }
}

proof fn lemma_first_by_id_len<T: Keyed>(s: Seq<T>)
    ensures
        first_by_id(s).len() <= s.len(),
    decreases s.len(),
{
    if s.len() > 0 {
        lemma_first_by_id_len(s.drop_last());
    }
}

} // verus!

verus! {

/// No tool references an environment or a group that is not among `env_ids` / `group_ids`.
pub open spec fn refs_resolve(tools: Seq<Tool>, env_ids: Seq<Seq<char>>, group_ids: Seq<Seq<char>>) -> bool {
    forall|i: int|
        0 <= i < tools.len() ==> !dangles((#[trigger] tools[i]).env_id, env_ids) && !dangles(
            tools[i].group_id,
            group_ids,
        )
}

/// A configuration in the shape that `normalize` produces: unique non-empty ids in each
/// list, and tool references that resolve.
pub open spec fn in_shape(envs: Seq<Env>, groups: Seq<Group>, tools: Seq<Tool>) -> bool {
    &&& ids_unique(envs)
    &&& ids_unique(groups)
    &&& ids_unique(tools)
    &&& refs_resolve(tools, keys(envs), keys(groups))
}

/// The kept entries have unique, non-empty ids.
pub proof fn lemma_first_by_id_unique<T: Keyed>(s: Seq<T>)
    ensures
        ids_unique(first_by_id(s)),
    decreases s.len(),
{
    if s.len() > 0 {
        let prev = first_by_id(s.drop_last());
        lemma_first_by_id_unique(s.drop_last());
        let x = s.last();
        if x.key().len() > 0 && !keys(prev).contains(x.key()) {
            let r = prev.push(x);
            assert forall|i: int, j: int| 0 <= i < j < r.len() implies (#[trigger] r[i]).key()
                != (#[trigger] r[j]).key() by {
                if j == r.len() - 1 {
                    assert(keys(prev)[i] == prev[i].key());
                } else {
                    assert(r[i] == prev[i] && r[j] == prev[j]);
                }
            }
            assert forall|i: int| 0 <= i < r.len() implies (#[trigger] r[i]).key().len() > 0 by {
                if i < r.len() - 1 {
                    assert(r[i] == prev[i]);
                }
            }
        }
    }
}

/// Entries whose ids are already unique and non-empty are all kept.
pub proof fn lemma_first_by_id_keeps_unique<T: Keyed>(s: Seq<T>)
    requires
        ids_unique(s),
    ensures
        first_by_id(s) == s,
    decreases s.len(),
{
    if s.len() > 0 {
        let p = s.drop_last();
        assert(ids_unique(p)) by {
            assert forall|i: int| 0 <= i < p.len() implies (#[trigger] p[i]).key().len() > 0 by {
                assert(p[i] == s[i]);
            }
            assert forall|i: int, j: int| 0 <= i < j < p.len() implies (#[trigger] p[i]).key()
                != (#[trigger] p[j]).key() by {
                assert(p[i] == s[i] && p[j] == s[j]);
            }
        }
        lemma_first_by_id_keeps_unique(p);
        let x = s.last();
        assert(!keys(p).contains(x.key())) by {
            if keys(p).contains(x.key()) {
                let i = choose|i: int| 0 <= i < keys(p).len() && keys(p)[i] == x.key();
                assert(s[i].key() == s[s.len() - 1].key());
            }
        }
        assert(s[s.len() - 1].key().len() > 0);
        assert(p.push(x) == s);
    }
}

/// After fixing, every tool reference resolves.
pub proof fn lemma_fixed_tools_resolve(tools: Seq<Tool>, env_ids: Seq<Seq<char>>, group_ids: Seq<Seq<char>>)
    ensures
        refs_resolve(fixed_tools(tools, env_ids, group_ids), env_ids, group_ids),
{
}

/// Tools whose references resolve are left unchanged, and none of them is counted.
pub proof fn lemma_fixed_tools_keep_resolved(tools: Seq<Tool>, env_ids: Seq<Seq<char>>, group_ids: Seq<Seq<char>>)
    requires
        refs_resolve(tools, env_ids, group_ids),
    ensures
        fixed_tools(tools, env_ids, group_ids) == tools,
        dangling_envs(tools, env_ids) == 0,
        dangling_groups(tools, group_ids) == 0,
    decreases tools.len(),
{
    assert forall|i: int| 0 <= i < tools.len() implies fix_refs(tools[i], env_ids, group_ids)
        == #[trigger] tools[i] by {
        assert(!dangles(tools[i].env_id, env_ids));
        assert(!dangles(tools[i].group_id, group_ids));
    }
    assert(fixed_tools(tools, env_ids, group_ids) =~= tools);
    if tools.len() > 0 {
        let p = tools.drop_last();
        assert(refs_resolve(p, env_ids, group_ids)) by {
            assert forall|i: int| 0 <= i < p.len() implies !dangles((#[trigger] p[i]).env_id, env_ids)
                && !dangles(p[i].group_id, group_ids) by {
                assert(p[i] == tools[i]);
            }
        }
        lemma_fixed_tools_keep_resolved(p, env_ids, group_ids);
        assert(!dangles(tools[tools.len() - 1].env_id, env_ids));
        assert(!dangles(tools[tools.len() - 1].group_id, group_ids));
    }
}

/// What `normalize` produces is in shape: ids are unique and non-empty in every list,
/// and every tool reference names an existing environment or group.
pub proof fn lemma_normalize_in_shape(envs: Seq<Env>, groups: Seq<Group>, tools: Seq<Tool>)
    ensures
        in_shape(
            first_by_id(envs),
            first_by_id(groups),
            fixed_tools(first_by_id(tools), keys(first_by_id(envs)), keys(first_by_id(groups))),
        ),
{
    let e = first_by_id(envs);
    let g = first_by_id(groups);
    let t = first_by_id(tools);
    lemma_first_by_id_unique(envs);
    lemma_first_by_id_unique(groups);
    lemma_first_by_id_unique(tools);
    lemma_fixed_tools_resolve(t, keys(e), keys(g));
    let f = fixed_tools(t, keys(e), keys(g));
    assert forall|i: int| 0 <= i < f.len() implies (#[trigger] f[i]).key().len() > 0 by {
        assert(f[i].key() == t[i].key());
    }
    assert forall|i: int, j: int| 0 <= i < j < f.len() implies (#[trigger] f[i]).key() != (
    #[trigger] f[j]).key() by {
        assert(f[i].key() == t[i].key() && f[j].key() == t[j].key());
    }
}

/// A configuration already in shape is left as it is by `normalize`, which reports
/// nothing: a healthy configuration passes silently, and normalising twice changes
/// nothing the second time.
pub proof fn lemma_normalize_keeps_in_shape(envs: Seq<Env>, groups: Seq<Group>, tools: Seq<Tool>)
    requires
        in_shape(envs, groups, tools),
    ensures
        first_by_id(envs) == envs,
        first_by_id(groups) == groups,
        fixed_tools(first_by_id(tools), keys(first_by_id(envs)), keys(first_by_id(groups))) == tools,
        normalize_notes(
            (envs.len() - first_by_id(envs).len()) as nat,
            (groups.len() - first_by_id(groups).len()) as nat,
            (tools.len() - first_by_id(tools).len()) as nat,
            dangling_envs(first_by_id(tools), keys(first_by_id(envs))),
            dangling_groups(first_by_id(tools), keys(first_by_id(groups))),
        ).len() == 0,
{
    lemma_first_by_id_keeps_unique(envs);
    lemma_first_by_id_keeps_unique(groups);
    lemma_first_by_id_keeps_unique(tools);
    lemma_fixed_tools_keep_resolved(tools, keys(envs), keys(groups));
}

} // verus!

verus! {

/// The label under which an environment's path is checked.
pub open spec fn env_path_label(e: Env) -> Seq<char> {
    "环境「"@ + e.name@ + "」的路径"@
}

/// Whether an environment's path may go into a command line.
pub open spec fn env_path_ok(e: Env) -> bool {
    path_issue(env_path_label(e), e.path@) is None
}

/// The environments whose path may go into a command line, in order.
pub open spec fn usable_envs(s: Seq<Env>) -> Seq<Env>
    decreases s.len(),
{
    if s.len() == 0 {
        Seq::empty()
    } else if env_path_ok(s.last()) {
        usable_envs(s.drop_last()).push(s.last())
    } else {
        usable_envs(s.drop_last())
    }
}

/// Why each refused environment was refused, in order.
pub open spec fn refusals(s: Seq<Env>) -> Seq<Seq<char>>
    decreases s.len(),
{
    if s.len() == 0 {
        Seq::empty()
    } else if env_path_ok(s.last()) {
        refusals(s.drop_last())
    } else {
        refusals(s.drop_last()).push(path_issue(env_path_label(s.last()), s.last().path@)->0)
    }
}

/// The ids of the refused environments, in order.
pub open spec fn refused_ids(s: Seq<Env>) -> Seq<Seq<char>>
    decreases s.len(),
{
    if s.len() == 0 {
        Seq::empty()
    } else if env_path_ok(s.last()) {
        refused_ids(s.drop_last())
    } else {
        refused_ids(s.drop_last()).push(s.last().id@)
    }
}

/// A tool no longer bound to an environment among `ids`.
pub open spec fn unbind(t: Tool, ids: Seq<Seq<char>>) -> Tool {
    match t.env_id {
        Some(x) => if ids.contains(x@) {
            Tool { env_id: None, ..t }
        } else {
            t
        },
        None => t,
    }
}

/// `unbind` on every tool.
pub open spec fn unbound_tools(tools: Seq<Tool>, ids: Seq<Seq<char>>) -> Seq<Tool> {
    tools.map_values(|t: Tool| unbind(t, ids))
}

/// The texts joined by `sep`.
pub open spec fn join_texts(texts: Seq<Seq<char>>, sep: Seq<char>) -> Seq<char>
    decreases texts.len(),
{
    if texts.len() == 0 {
        Seq::empty()
    } else if texts.len() == 1 {
        texts[0]
    } else {
        join_texts(texts.drop_last(), sep) + sep + texts.last()
    }
}

/// The leading warning of an import that refused environments.
pub open spec fn refusal_warning(why: Seq<Seq<char>>) -> Seq<Seq<char>> {
    if why.len() > 0 {
        seq![
            "已拒绝 "@ + decimal(why.len()) + " 个路径不合法的运行环境（会破坏终端命令行）："@
                + join_texts(why, "；"@),
        ]
    } else {
        Seq::empty()
    }
}

fn join_with(texts: &Vec<String>, sep: &str) -> (r: String)
    ensures
        r@ == join_texts(views(texts@), sep@),
{
    let ghost t = views(texts@);
    let mut out = String::new();
    let mut i: usize = 0;
    while i < texts.len()
        invariant
            i <= texts.len(),
            t == views(texts@),
            out@ == join_texts(t.take(i as int), sep@),
        decreases texts.len() - i,
    {
        assert(t.take(i + 1).drop_last() == t.take(i as int));
        if i > 0 {
            out.append(sep);
        } else {
            assert(out@ == Seq::<char>::empty());
        }
        out.append(texts[i].as_str());
        i += 1;
    }
    assert(t.take(texts.len() as int) == t);
    out
}

impl Config {
    /// Prepares an imported configuration: sanitizes the settings, refuses the
    /// environments whose path may not go into a command line (and unbinds the tools
    /// bound to their ids), then normalizes (see `normalize`). The warnings are a note on
    /// the refused environments, if any, followed by the notes of `normalize`.
    pub fn prepare_imported(&mut self) -> (warnings: Vec<String>)
        ensures
            final(self).version == old(self).version,
            final(self).settings.theme@ == sanitized_theme(old(self).settings.theme@),
            final(self).settings.close_action@ == sanitized_close_action(
                old(self).settings.close_action@,
            ),
            final(self).envs@ == first_by_id(usable_envs(old(self).envs@)),
            final(self).groups@ == first_by_id(old(self).groups@),
            final(self).tools@ == fixed_tools(
                first_by_id(unbound_tools(old(self).tools@, refused_ids(old(self).envs@))),
                keys(first_by_id(usable_envs(old(self).envs@))),
                keys(first_by_id(old(self).groups@)),
            ),
            views(warnings@) == refusal_warning(refusals(old(self).envs@)) + normalize_notes(
                (usable_envs(old(self).envs@).len() - first_by_id(
                    usable_envs(old(self).envs@),
                ).len()) as nat,
                (old(self).groups@.len() - first_by_id(old(self).groups@).len()) as nat,
                (old(self).tools@.len() - first_by_id(
                    unbound_tools(old(self).tools@, refused_ids(old(self).envs@)),
                ).len()) as nat,
                dangling_envs(
                    first_by_id(unbound_tools(old(self).tools@, refused_ids(old(self).envs@))),
                    keys(first_by_id(usable_envs(old(self).envs@))),
                ),
                dangling_groups(
                    first_by_id(unbound_tools(old(self).tools@, refused_ids(old(self).envs@))),
                    keys(first_by_id(old(self).groups@)),
                ),
            ),
    {
        self.settings.sanitize();
        let mut envs: Vec<Env> = Vec::new();
        std::mem::swap(&mut envs, &mut self.envs);
        let ghost all = envs@;
        let mut kept: Vec<Env> = Vec::new();
        let mut why: Vec<String> = Vec::new();
        let mut dropped: Vec<String> = Vec::new();
        for e in it: envs.into_iter()
            invariant
                all == it.seq(),
                kept@ == usable_envs(all.take(it.index())),
                views(why@) == refusals(all.take(it.index())),
                views(dropped@) == refused_ids(all.take(it.index())),
        {
            let ghost i = it.index();
            assert(all.take(i + 1).drop_last() == all.take(i));
            assert(all.take(i + 1).last() == e);
            let mut label = owned("环境「");
            label.append(e.name.as_str());
            label.append("」的路径");
            match check_env_path(label.as_str(), e.path.as_str()) {
                Ok(()) => {
                    kept.push(e);
                },
                Err(m) => {
                    let ghost old_why = views(why@);
                    let ghost old_dropped = views(dropped@);
                    why.push(m);
                    dropped.push(e.id.clone());
                    assert(views(why@) =~= old_why.push(m@));
                    assert(views(dropped@) =~= old_dropped.push(e.id@));
                },
            }
        }
        assert(all.take(all.len() as int) == all);
        self.envs = kept;
        let mut tools: Vec<Tool> = Vec::new();
        std::mem::swap(&mut tools, &mut self.tools);
        let ghost ts = tools@;
        let mut unbound: Vec<Tool> = Vec::new();
        for t in it: tools.into_iter()
            invariant
                ts == it.seq(),
                unbound@ == unbound_tools(ts.take(it.index()), views(dropped@)),
        {
            let ghost i = it.index();
            assert(ts.take(i + 1).drop_last() == ts.take(i));
            assert(ts.take(i + 1).last() == t);
            let mut t = t;
            let drop = match &t.env_id {
                Some(id) => contains_id(&dropped, id),
                None => false,
            };
            if drop {
                t.env_id = None;
            }
            unbound.push(t);
            assert(unbound@ =~= unbound_tools(ts.take(i + 1), views(dropped@)));
        }
        assert(ts.take(ts.len() as int) == ts);
        self.tools = unbound;
        let mut warnings = self.normalize();
        if why.len() > 0 {
            let mut m = owned("已拒绝 ");
            let n = decimal_string(why.len() as u64);
            m.append(n.as_str());
            m.append(" 个路径不合法的运行环境（会破坏终端命令行）：");
            let j = join_with(&why, "；");
            m.append(j.as_str());
            let ghost rest = views(warnings@);
            warnings.insert(0, m);
            assert(views(warnings@) =~= seq![m@] + rest);
        }
        warnings
    }
}

} // verus!

verus! {

/// Every kept entry is one of the given entries.
pub proof fn lemma_first_by_id_from<T: Keyed>(s: Seq<T>)
    ensures
        forall|i: int| 0 <= i < first_by_id(s).len() ==> s.contains(#[trigger] first_by_id(s)[i]),
    decreases s.len(),
{
    if s.len() > 0 {
        let p = s.drop_last();
        lemma_first_by_id_from(p);
        assert forall|i: int| 0 <= i < first_by_id(s).len() implies s.contains(
            #[trigger] first_by_id(s)[i],
        ) by {
            if i < first_by_id(p).len() {
                assert(first_by_id(s)[i] == first_by_id(p)[i]);
                let j = choose|j: int| 0 <= j < p.len() && p[j] == first_by_id(p)[i];
                assert(s[j] == p[j]);
            } else {
                assert(first_by_id(s)[i] == s[s.len() - 1]);
            }
        }
    }
}

/// Every usable environment has a path that may go into a command line.
pub proof fn lemma_usable_envs_ok(s: Seq<Env>)
    ensures
        forall|i: int| 0 <= i < usable_envs(s).len() ==> env_path_ok(#[trigger] usable_envs(s)[i]),
    decreases s.len(),
{
    if s.len() > 0 {
        let p = s.drop_last();
        lemma_usable_envs_ok(p);
        assert forall|i: int| 0 <= i < usable_envs(s).len() implies env_path_ok(
            #[trigger] usable_envs(s)[i],
        ) by {
            if i < usable_envs(p).len() {
                assert(usable_envs(s)[i] == usable_envs(p)[i]);
            }
        }
    }
}

/// After an import, every environment has a path that may go into a command line, and
/// the configuration is in shape (unique ids, references that resolve).
pub proof fn lemma_imported_config_is_safe(envs: Seq<Env>, groups: Seq<Group>, tools: Seq<Tool>)
    ensures
        forall|i: int|
            0 <= i < first_by_id(usable_envs(envs)).len() ==> env_path_ok(
                #[trigger] first_by_id(usable_envs(envs))[i],
            ),
        in_shape(
            first_by_id(usable_envs(envs)),
            first_by_id(groups),
            fixed_tools(
                first_by_id(unbound_tools(tools, refused_ids(envs))),
                keys(first_by_id(usable_envs(envs))),
                keys(first_by_id(groups)),
            ),
        ),
{
    let u = usable_envs(envs);
    lemma_usable_envs_ok(envs);
    lemma_first_by_id_from(u);
    assert forall|i: int| 0 <= i < first_by_id(u).len() implies env_path_ok(
        #[trigger] first_by_id(u)[i],
    ) by {
        let j = choose|j: int| 0 <= j < u.len() && u[j] == first_by_id(u)[i];
        assert(env_path_ok(u[j]));
    }
    lemma_normalize_in_shape(u, groups, unbound_tools(tools, refused_ids(envs)));
}

} // verus!
