//! The tray menu: its layout (groups of tools in configuration order, then the tools
//! without a group), the fingerprint that tells when it must be rebuilt, and the ids
//! of its items.

use vstd::prelude::*;
use crate::model::{Config, Group, Tool};
use crate::text::{chars_of, chars_start_with_str, free_of, has_prefix, owned, string_of};

verus! {

/// The fingerprint of the groups: `g:id|name;` for each.
pub open spec fn groups_sig(gs: Seq<Group>) -> Seq<char>
    decreases gs.len(),
{
    if gs.len() == 0 {
        Seq::empty()
    } else {
        groups_sig(gs.drop_last()) + "g:"@ + gs.last().id@ + "|"@ + gs.last().name@ + ";"@
    }
}

/// A tool's group id, or empty.
pub open spec fn group_of(t: Tool) -> Seq<char> {
    match t.group_id {
        Some(g) => g@,
        None => Seq::empty(),
    }
}

/// The fingerprint of the tools: `t:id|name|group;` for each, in order.
pub open spec fn tools_sig(ts: Seq<Tool>) -> Seq<char>
    decreases ts.len(),
{
    if ts.len() == 0 {
        Seq::empty()
    } else {
        tools_sig(ts.drop_last()) + "t:"@ + ts.last().id@ + "|"@ + ts.last().name@ + "|"@
            + group_of(ts.last()) + ";"@
    }
}

/// What the tray menu depends on: the groups' ids and names, and the tools' ids,
/// names and groups, in order.
pub open spec fn signature(c: Config) -> Seq<char> {
    groups_sig(c.groups@) + tools_sig(c.tools@)
}

/// The fingerprint of what the tray menu shows (see `signature`).
pub fn tray_signature(cfg: &Config) -> (r: String)
    ensures
        r@ == signature(*cfg),
{
    let mut sig = String::new();
    let ghost gs = cfg.groups@;
    let mut i: usize = 0;
    while i < cfg.groups.len()
        invariant
            i <= cfg.groups.len(),
            gs == cfg.groups@,
            sig@ == groups_sig(gs.take(i as int)),
        decreases cfg.groups.len() - i,
    {
        assert(gs.take(i + 1).drop_last() == gs.take(i as int));
        let g = &cfg.groups[i];
        sig.append("g:");
        sig.append(g.id.as_str());
        sig.append("|");
        sig.append(g.name.as_str());
        sig.append(";");
        i += 1;
    }
    assert(gs.take(gs.len() as int) == gs);
    let ghost head = sig@;
    let ghost ts = cfg.tools@;
    let mut j: usize = 0;
    while j < cfg.tools.len()
        invariant
            j <= cfg.tools.len(),
            ts == cfg.tools@,
            sig@ == head + tools_sig(ts.take(j as int)),
        decreases cfg.tools.len() - j,
    {
        assert(ts.take(j + 1).drop_last() == ts.take(j as int));
        let t = &cfg.tools[j];
        sig.append("t:");
        sig.append(t.id.as_str());
        sig.append("|");
        sig.append(t.name.as_str());
        sig.append("|");
        match &t.group_id {
            Some(g) => sig.append(g.as_str()),
            None => {},
        }
        sig.append(";");
        j += 1;
    }
    assert(ts.take(ts.len() as int) == ts);
    sig
}

/// Whether saving `next` over `previous` changes what the tray menu shows.
pub fn tray_changed(previous: &Config, next: &Config) -> (b: bool)
    ensures
        b == (signature(*previous) != signature(*next)),
{
    let a = tray_signature(previous);
    let b = tray_signature(next);
    !(a == b)
}

/// One tool item of the tray menu.
#[derive(Clone, Debug)]
pub struct TrayEntry {
    /// `t:` and the tool's id.
    pub menu_id: String,
    /// The tool's name.
    pub label: String,
}

/// A submenu of the tray: a group's name and its tools.
#[derive(Clone, Debug)]
pub struct TraySection {
    pub title: String,
    pub entries: Vec<TrayEntry>,
}

/// The tool part of the tray menu.
#[derive(Clone, Debug)]
pub struct TrayMenu {
    /// One submenu per group that has tools, in group order.
    pub sections: Vec<TraySection>,
    /// The tools without a group (shown last, when there are any).
    pub ungrouped: Vec<TrayEntry>,
}

/// A tray item as values: (menu id, label).
pub open spec fn entry_of(t: Tool) -> (Seq<char>, Seq<char>) {
    ("t:"@ + t.id@, t.name@)
}

/// The view of a tray item.
pub open spec fn entry_view(e: TrayEntry) -> (Seq<char>, Seq<char>) {
    (e.menu_id@, e.label@)
}

/// The views of tray items.
pub open spec fn entries_view(es: Seq<TrayEntry>) -> Seq<(Seq<char>, Seq<char>)> {
    es.map_values(|e: TrayEntry| entry_view(e))
}

/// The views of tray submenus.
pub open spec fn sections_view(ss: Seq<TraySection>) -> Seq<(Seq<char>, Seq<(Seq<char>, Seq<char>)>)> {
    ss.map_values(|s: TraySection| (s.title@, entries_view(s.entries@)))
}

/// Whether a tool belongs to the group with id `gid`.
pub open spec fn in_group(t: Tool, gid: Seq<char>) -> bool {
    t.group_id matches Some(x) && x@ == gid
}

/// Whether a tool has no group (none, or an empty group id).
pub open spec fn ungrouped(t: Tool) -> bool {
    group_of(t).len() == 0
}

/// The indices of the tools in group `gid`, in order.
pub open spec fn members(ts: Seq<Tool>, gid: Seq<char>) -> Seq<int>
    decreases ts.len(),
{
    if ts.len() == 0 {
        Seq::empty()
    } else if in_group(ts.last(), gid) {
        members(ts.drop_last(), gid).push(ts.len() - 1)
    } else {
        members(ts.drop_last(), gid)
    }
}

/// The indices of the tools without a group, in order.
pub open spec fn loose(ts: Seq<Tool>) -> Seq<int>
    decreases ts.len(),
{
    if ts.len() == 0 {
        Seq::empty()
    } else if ungrouped(ts.last()) {
        loose(ts.drop_last()).push(ts.len() - 1)
    } else {
        loose(ts.drop_last())
    }
}

/// The tray items of the tools at the given indices.
pub open spec fn entries_at(ts: Seq<Tool>, s: Seq<int>) -> Seq<(Seq<char>, Seq<char>)> {
    s.map_values(|i: int| entry_of(ts[i]))
}

/// The submenus: for each group that has tools, its name and its tools in configuration order.
pub open spec fn tray_sections(gs: Seq<Group>, ts: Seq<Tool>) -> Seq<(Seq<char>, Seq<(Seq<char>, Seq<char>)>)>
    decreases gs.len(),
{
    if gs.len() == 0 {
        Seq::empty()
    } else {
        let m = members(ts, gs.last().id@);
        if m.len() > 0 {
            tray_sections(gs.drop_last(), ts).push(
                (gs.last().name@, entries_at(ts, m)),
            )
        } else {
            tray_sections(gs.drop_last(), ts)
        }
    }
}

} // verus!

verus! {

/// The indices as integers.
pub open spec fn ints(v: Seq<usize>) -> Seq<int> {
    v.map_values(|x: usize| x as int)
}

fn group_members(tools: &Vec<Tool>, gid: &String) -> (r: Vec<usize>)
    ensures
        ints(r@) == members(tools@, gid@),
        forall|k: int| 0 <= k < r@.len() ==> r@[k] < tools@.len(),
{
    let ghost ts = tools@;
    let mut r: Vec<usize> = Vec::new();
    let mut i: usize = 0;
    while i < tools.len()
        invariant
            i <= tools.len(),
            ts == tools@,
            ints(r@) == members(ts.take(i as int), gid@),
            forall|k: int| 0 <= k < r@.len() ==> r@[k] < i,
        decreases tools.len() - i,
    {
        assert(ts.take(i + 1).drop_last() == ts.take(i as int));
        assert(ts.take(i + 1).last() == ts[i as int]);
        let member = match &tools[i].group_id {
            Some(x) => *x == *gid,
            None => false,
        };
        if member {
            let ghost old_r = r@;
            r.push(i);
            assert(ints(r@) =~= ints(old_r).push(i as int));
        }
        i += 1;
    }
    assert(ts.take(ts.len() as int) == ts);
    r
}

fn loose_members(tools: &Vec<Tool>) -> (r: Vec<usize>)
    ensures
        ints(r@) == loose(tools@),
        forall|k: int| 0 <= k < r@.len() ==> r@[k] < tools@.len(),
{
    let ghost ts = tools@;
    let mut r: Vec<usize> = Vec::new();
    let mut i: usize = 0;
    while i < tools.len()
        invariant
            i <= tools.len(),
            ts == tools@,
            ints(r@) == loose(ts.take(i as int)),
            forall|k: int| 0 <= k < r@.len() ==> r@[k] < i,
        decreases tools.len() - i,
    {
        assert(ts.take(i + 1).drop_last() == ts.take(i as int));
        assert(ts.take(i + 1).last() == ts[i as int]);
        let empty = match &tools[i].group_id {
            Some(x) => chars_of(x.as_str()).len() == 0,
            None => true,
        };
        if empty {
            let ghost old_r = r@;
            r.push(i);
            assert(ints(r@) =~= ints(old_r).push(i as int));
        }
        i += 1;
    }
    assert(ts.take(ts.len() as int) == ts);
    r
}

fn entries_for(tools: &Vec<Tool>, idx: &Vec<usize>) -> (r: Vec<TrayEntry>)
    requires
        forall|k: int| 0 <= k < idx@.len() ==> idx@[k] < tools@.len(),
    ensures
        entries_view(r@) == entries_at(tools@, ints(idx@)),
{
    let mut r: Vec<TrayEntry> = Vec::new();
    let mut k: usize = 0;
    while k < idx.len()
        invariant
            k <= idx.len(),
            forall|j: int| 0 <= j < idx@.len() ==> idx@[j] < tools@.len(),
            entries_view(r@) == entries_at(tools@, ints(idx@).take(k as int)),
        decreases idx.len() - k,
    {
        let t = &tools[idx[k]];
        let mut menu_id = owned("t:");
        menu_id.append(t.id.as_str());
        let ghost old_r = r@;
        let e = TrayEntry { menu_id, label: t.name.clone() };
        assert(entry_view(e) == entry_of(tools@[idx@[k as int] as int]));
        r.push(e);
        assert(ints(idx@).take(k + 1) == ints(idx@).take(k as int).push(idx@[k as int] as int));
        assert(entries_view(r@) =~= entries_view(old_r).push(entry_view(e)));
        assert(entries_view(r@) =~= entries_at(tools@, ints(idx@).take(k + 1)));
        k += 1;
    }
    assert(ints(idx@).take(idx.len() as int) == ints(idx@));
    r
}

/// The tool part of the tray menu (see `tray_sections` and `loose`).
pub fn tray_menu(config: &Config) -> (r: TrayMenu)
    ensures
        sections_view(r.sections@) == tray_sections(config.groups@, config.tools@),
        entries_view(r.ungrouped@) == entries_at(config.tools@, loose(config.tools@)),
{
    let ghost gs = config.groups@;
    let mut sections: Vec<TraySection> = Vec::new();
    let mut i: usize = 0;
    while i < config.groups.len()
        invariant
            i <= config.groups.len(),
            gs == config.groups@,
            sections_view(sections@) == tray_sections(gs.take(i as int), config.tools@),
        decreases config.groups.len() - i,
    {
        assert(gs.take(i + 1).drop_last() == gs.take(i as int));
        assert(gs.take(i + 1).last() == gs[i as int]);
        let g = &config.groups[i];
        let m = group_members(&config.tools, &g.id);
        if m.len() > 0 {
            let entries = entries_for(&config.tools, &m);
            let ghost old_s = sections@;
            sections.push(TraySection { title: g.name.clone(), entries });
            assert(sections_view(sections@) =~= sections_view(old_s).push(
                (g.name@, entries_at(config.tools@, ints(m@))),
            ));
        }
        i += 1;
    }
    assert(gs.take(gs.len() as int) == gs);
    let l = loose_members(&config.tools);
    let ungrouped = entries_for(&config.tools, &l);
    TrayMenu { sections, ungrouped }
}

/// The tool id of a tray item id (`t:` and the id), or `None` for other items.
pub open spec fn menu_tool_id(id: Seq<char>) -> Option<Seq<char>> {
    if has_prefix(id, "t:"@) {
        Some(id.skip(2))
    } else {
        None
    }
}

/// The tool id of a tray item id (see `menu_tool_id`).
pub fn tool_id_of_menu_item(id: &str) -> (r: Option<String>)
    ensures
        match r {
            Some(t) => menu_tool_id(id@) == Some(t@),
            None => menu_tool_id(id@) is None,
        },
{
    let v = chars_of(id);
    if chars_start_with_str(v.as_slice(), "t:") {
        proof {
            reveal_strlit("t:");
        }
        let mut rest: Vec<char> = Vec::new();
        let mut k: usize = 2;
        while k < v.len()
            invariant
                2 <= k <= v.len(),
                rest@ == v@.subrange(2, k as int),
            decreases v.len() - k,
        {
            rest.push(v[k]);
            k += 1;
            assert(rest@ == v@.subrange(2, k as int));
        }
        assert(v@.skip(2) == v@.subrange(2, v.len() as int));
        Some(string_of(rest.as_slice()))
    } else {
        None
    }
}

} // verus!


verus! {

/// A group's part of the fingerprint, without its closing `;`.
pub open spec fn group_body(g: Group) -> Seq<char> {
    "g:"@ + g.id@ + "|"@ + g.name@
}

/// A tool's part of the fingerprint, without its closing `;`.
pub open spec fn tool_body(t: Tool) -> Seq<char> {
    "t:"@ + t.id@ + "|"@ + t.name@ + "|"@ + group_of(t)
}

/// A group whose id is not empty and whose fields the fingerprint keeps apart: no `;` in
/// its id or name, no `|` in its id.
pub open spec fn plain_group(g: Group) -> bool {
    &&& g.id@.len() > 0
    &&& free_of(g.id@, '|')
    &&& free_of(g.id@, ';')
    &&& free_of(g.name@, ';')
}

/// A tool whose fields the fingerprint keeps apart: no `;` in its id, name or group, no
/// `|` in its id or name.
pub open spec fn plain_tool(t: Tool) -> bool {
    &&& free_of(t.id@, '|')
    &&& free_of(t.id@, ';')
    &&& free_of(t.name@, '|')
    &&& free_of(t.name@, ';')
    &&& free_of(group_of(t), ';')
}

/// Every group and tool of the configuration is plain (see `plain_group`, `plain_tool`).
pub open spec fn plain_tray_fields(c: Config) -> bool {
    &&& forall|i: int| 0 <= i < c.groups@.len() ==> #[trigger] plain_group(c.groups@[i])
    &&& forall|i: int| 0 <= i < c.tools@.len() ==> #[trigger] plain_tool(c.tools@[i])
}

/// What the menu reads of the groups: id and name.
pub open spec fn groups_key(gs: Seq<Group>) -> Seq<(Seq<char>, Seq<char>)> {
    gs.map_values(|g: Group| (g.id@, g.name@))
}

/// What the menu reads of the tools: id, name and group.
pub open spec fn tools_key(ts: Seq<Tool>) -> Seq<(Seq<char>, Seq<char>, Seq<char>)> {
    ts.map_values(|t: Tool| (t.id@, t.name@, group_of(t)))
}

proof fn lemma_cut_at(p: Seq<char>, q: Seq<char>, p2: Seq<char>, q2: Seq<char>, sep: char)
    requires
        free_of(p, sep),
        free_of(p2, sep),
        p + seq![sep] + q == p2 + seq![sep] + q2,
    ensures
        p == p2,
        q == q2,
{
    let l = p + seq![sep] + q;
    let r = p2 + seq![sep] + q2;
    if p.len() < p2.len() {
        assert(l[p.len() as int] == sep);
        assert(r[p.len() as int] == p2[p.len() as int]);
    } else if p2.len() < p.len() {
        assert(r[p2.len() as int] == sep);
        assert(l[p2.len() as int] == p[p2.len() as int]);
    }
    assert(p =~= l.take(p.len() as int));
    assert(p2 =~= r.take(p.len() as int));
    assert(q =~= l.skip(p.len() as int + 1));
    assert(q2 =~= r.skip(p.len() as int + 1));
}

proof fn lemma_cut_last(a: Seq<char>, x: Seq<char>, c: Seq<char>, y: Seq<char>)
    requires
        a.len() == 0 || a.last() == ';',
        c.len() == 0 || c.last() == ';',
        free_of(x, ';'),
        free_of(y, ';'),
        a + (x + seq![';']) == c + (y + seq![';']),
    ensures
        a == c,
        x == y,
{
    let l = a + (x + seq![';']);
    let r = c + (y + seq![';']);
    let n = l.len();
    if x.len() < y.len() {
        let k = a.len() - 1;
        assert(l[k] == ';');
        assert(r[k] == y[k - c.len()]);
    } else if y.len() < x.len() {
        let k = c.len() - 1;
        assert(r[k] == ';');
        assert(l[k] == x[k - a.len()]);
    }
    assert(a =~= l.take(a.len() as int));
    assert(c =~= r.take(a.len() as int));
    assert(x =~= l.subrange(a.len() as int, n - 1));
    assert(y =~= r.subrange(a.len() as int, n - 1));
}

proof fn lemma_group_body(g: Group)
    requires
        plain_group(g),
    ensures
        free_of(group_body(g), ';'),
        group_body(g).len() > 0 && group_body(g)[0] == 'g',
        group_body(g).skip(2) == g.id@ + seq!['|'] + g.name@,
{
    reveal_strlit("g:");
    reveal_strlit("|");
    assert(group_body(g) =~= seq!['g', ':'] + g.id@ + seq!['|'] + g.name@);
    assert(group_body(g).skip(2) =~= g.id@ + seq!['|'] + g.name@);
    assert forall|i: int| 0 <= i < group_body(g).len() implies group_body(g)[i] != ';' by {
        if i >= 2 {
            assert(group_body(g)[i] == group_body(g).skip(2)[i - 2]);
        }
    }
}

proof fn lemma_tool_body(t: Tool)
    requires
        plain_tool(t),
    ensures
        free_of(tool_body(t), ';'),
        tool_body(t).len() > 0 && tool_body(t)[0] == 't',
        tool_body(t).skip(2) == t.id@ + seq!['|'] + (t.name@ + seq!['|'] + group_of(t)),
{
    reveal_strlit("t:");
    reveal_strlit("|");
    let n = t.name@ + seq!['|'] + group_of(t);
    assert(tool_body(t) =~= seq!['t', ':'] + t.id@ + seq!['|'] + t.name@ + seq!['|'] + group_of(t));
    assert(tool_body(t).skip(2) =~= t.id@ + seq!['|'] + n);
    assert forall|i: int| 0 <= i < tool_body(t).len() implies tool_body(t)[i] != ';' by {
        if i >= 2 {
            assert(tool_body(t)[i] == tool_body(t).skip(2)[i - 2]);
            let j = i - 2;
            if j > t.id@.len() {
                assert(tool_body(t).skip(2)[j] == n[j - t.id@.len() - 1]);
            }
        }
    }
}

proof fn lemma_decode_group(g1: Group, g2: Group)
    requires
        plain_group(g1),
        plain_group(g2),
        group_body(g1) == group_body(g2),
    ensures
        g1.id@ == g2.id@,
        g1.name@ == g2.name@,
{
    lemma_group_body(g1);
    lemma_group_body(g2);
    lemma_cut_at(g1.id@, g1.name@, g2.id@, g2.name@, '|');
}

proof fn lemma_decode_tool(t1: Tool, t2: Tool)
    requires
        plain_tool(t1),
        plain_tool(t2),
        tool_body(t1) == tool_body(t2),
    ensures
        t1.id@ == t2.id@,
        t1.name@ == t2.name@,
        group_of(t1) == group_of(t2),
{
    lemma_tool_body(t1);
    lemma_tool_body(t2);
    let n1 = t1.name@ + seq!['|'] + group_of(t1);
    let n2 = t2.name@ + seq!['|'] + group_of(t2);
    lemma_cut_at(t1.id@, n1, t2.id@, n2, '|');
    lemma_cut_at(t1.name@, group_of(t1), t2.name@, group_of(t2), '|');
}

} // verus!

verus! {

proof fn lemma_sig_steps(gs: Seq<Group>, ts: Seq<Tool>)
    ensures
        gs.len() > 0 ==> groups_sig(gs) == groups_sig(gs.drop_last()) + (group_body(gs.last()) + seq![';']),
        ts.len() > 0 ==> tools_sig(ts) == tools_sig(ts.drop_last()) + (tool_body(ts.last()) + seq![';']),
        groups_sig(gs).len() == 0 || groups_sig(gs).last() == ';',
        ({ let s = groups_sig(gs) + tools_sig(ts); s.len() == 0 || s.last() == ';' }),
{
    reveal_strlit(";");
    if gs.len() > 0 {
        assert(groups_sig(gs) =~= groups_sig(gs.drop_last()) + (group_body(gs.last()) + seq![';']));
    }
    if ts.len() > 0 {
        assert(tools_sig(ts) =~= tools_sig(ts.drop_last()) + (tool_body(ts.last()) + seq![';']));
    }
    let s = groups_sig(gs) + tools_sig(ts);
    if tools_sig(ts).len() == 0 {
        assert(s =~= groups_sig(gs));
    } else {
        assert(s.last() == tools_sig(ts).last());
    }
}

proof fn lemma_peel_tools(gs1: Seq<Group>, ts1: Seq<Tool>, gs2: Seq<Group>, ts2: Seq<Tool>)
    requires
        ts1.len() > 0,
        plain_tool(ts1.last()),
        ts2.len() > 0 || gs2.len() > 0,
        ts2.len() > 0 ==> plain_tool(ts2.last()),
        ts2.len() == 0 ==> plain_group(gs2.last()),
        groups_sig(gs1) + tools_sig(ts1) == groups_sig(gs2) + tools_sig(ts2),
    ensures
        ts2.len() > 0,
        groups_sig(gs1) + tools_sig(ts1.drop_last()) == groups_sig(gs2) + tools_sig(ts2.drop_last()),
        ts1.last().id@ == ts2.last().id@,
        ts1.last().name@ == ts2.last().name@,
        group_of(ts1.last()) == group_of(ts2.last()),
{
    lemma_sig_steps(gs1, ts1);
    let s1 = groups_sig(gs1) + tools_sig(ts1);
    let s2 = groups_sig(gs2) + tools_sig(ts2);
    let a = groups_sig(gs1) + tools_sig(ts1.drop_last());
    let x = tool_body(ts1.last());
    lemma_tool_body(ts1.last());
    lemma_sig_steps(gs1, ts1.drop_last());
    assert(s1 =~= a + (x + seq![';']));
    if ts2.len() > 0 {
        lemma_sig_steps(gs2, ts2);
        let c = groups_sig(gs2) + tools_sig(ts2.drop_last());
        let y = tool_body(ts2.last());
        lemma_tool_body(ts2.last());
        lemma_sig_steps(gs2, ts2.drop_last());
        assert(s2 =~= c + (y + seq![';']));
        lemma_cut_last(a, x, c, y);
        lemma_decode_tool(ts1.last(), ts2.last());
    } else {
        lemma_sig_steps(gs2, ts2);
        let c = groups_sig(gs2.drop_last());
        let y = group_body(gs2.last());
        lemma_group_body(gs2.last());
        lemma_sig_steps(gs2.drop_last(), ts2);
        assert(tools_sig(ts2) =~= Seq::<char>::empty());
        assert(s2 =~= c + (y + seq![';']));
        lemma_cut_last(a, x, c, y);
    }
}

proof fn lemma_peel_groups(gs1: Seq<Group>, gs2: Seq<Group>)
    requires
        gs1.len() > 0,
        plain_group(gs1.last()),
        gs2.len() > 0 ==> plain_group(gs2.last()),
        groups_sig(gs1) == groups_sig(gs2),
    ensures
        gs2.len() > 0,
        groups_sig(gs1.drop_last()) == groups_sig(gs2.drop_last()),
        gs1.last().id@ == gs2.last().id@,
        gs1.last().name@ == gs2.last().name@,
{
    let e: Seq<Tool> = Seq::empty();
    lemma_sig_steps(gs1, e);
    lemma_sig_steps(gs2, e);
    lemma_group_body(gs1.last());
    if gs2.len() == 0 {
        assert(groups_sig(gs2).len() == 0);
    } else {
        let a = groups_sig(gs1.drop_last());
        let x = group_body(gs1.last());
        let c = groups_sig(gs2.drop_last());
        let y = group_body(gs2.last());
        lemma_group_body(gs2.last());
        lemma_sig_steps(gs1.drop_last(), e);
        lemma_sig_steps(gs2.drop_last(), e);
        lemma_cut_last(a, x, c, y);
        lemma_decode_group(gs1.last(), gs2.last());
    }
}

proof fn lemma_signature_keys(gs1: Seq<Group>, ts1: Seq<Tool>, gs2: Seq<Group>, ts2: Seq<Tool>)
    requires
        forall|i: int| 0 <= i < gs1.len() ==> #[trigger] plain_group(gs1[i]),
        forall|i: int| 0 <= i < gs2.len() ==> #[trigger] plain_group(gs2[i]),
        forall|i: int| 0 <= i < ts1.len() ==> #[trigger] plain_tool(ts1[i]),
        forall|i: int| 0 <= i < ts2.len() ==> #[trigger] plain_tool(ts2[i]),
        groups_sig(gs1) + tools_sig(ts1) == groups_sig(gs2) + tools_sig(ts2),
    ensures
        groups_key(gs1) == groups_key(gs2),
        tools_key(ts1) == tools_key(ts2),
    decreases gs1.len() + ts1.len() + gs2.len() + ts2.len(),
{
    if ts1.len() > 0 || ts2.len() > 0 {
        if ts1.len() > 0 {
            if ts2.len() == 0 && gs2.len() == 0 {
                lemma_sig_steps(gs1, ts1);
                lemma_tool_body(ts1.last());
                assert((groups_sig(gs2) + tools_sig(ts2)).len() == 0);
            }
            assert(plain_tool(ts1[ts1.len() - 1]));
            assert(ts2.len() > 0 ==> plain_tool(ts2[ts2.len() - 1]));
            assert(ts2.len() == 0 ==> plain_group(gs2[gs2.len() - 1]));
            lemma_peel_tools(gs1, ts1, gs2, ts2);
        } else {
            if gs1.len() == 0 {
                lemma_sig_steps(gs2, ts2);
                lemma_tool_body(ts2.last());
                assert((groups_sig(gs1) + tools_sig(ts1)).len() == 0);
            }
            assert(plain_tool(ts2[ts2.len() - 1]));
            assert(plain_group(gs1[gs1.len() - 1]));
            lemma_peel_tools(gs2, ts2, gs1, ts1);
        }
        let p1 = ts1.drop_last();
        let p2 = ts2.drop_last();
        assert forall|i: int| 0 <= i < p1.len() implies #[trigger] plain_tool(p1[i]) by {
            assert(p1[i] == ts1[i]);
        }
        assert forall|i: int| 0 <= i < p2.len() implies #[trigger] plain_tool(p2[i]) by {
            assert(p2[i] == ts2[i]);
        }
        lemma_signature_keys(gs1, p1, gs2, p2);
        assert(tools_key(ts1) =~= tools_key(p1).push((ts1.last().id@, ts1.last().name@, group_of(ts1.last()))));
        assert(tools_key(ts2) =~= tools_key(p2).push((ts2.last().id@, ts2.last().name@, group_of(ts2.last()))));
    } else if gs1.len() > 0 || gs2.len() > 0 {
        assert(tools_sig(ts1) =~= Seq::<char>::empty());
        assert(tools_sig(ts2) =~= Seq::<char>::empty());
        assert(groups_sig(gs1) + tools_sig(ts1) =~= groups_sig(gs1));
        assert(groups_sig(gs2) + tools_sig(ts2) =~= groups_sig(gs2));
        if gs1.len() > 0 {
            assert(plain_group(gs1[gs1.len() - 1]));
            assert(gs2.len() > 0 ==> plain_group(gs2[gs2.len() - 1]));
            lemma_peel_groups(gs1, gs2);
        } else {
            assert(plain_group(gs2[gs2.len() - 1]));
            lemma_peel_groups(gs2, gs1);
        }
        let p1 = gs1.drop_last();
        let p2 = gs2.drop_last();
        assert forall|i: int| 0 <= i < p1.len() implies #[trigger] plain_group(p1[i]) by {
            assert(p1[i] == gs1[i]);
        }
        assert forall|i: int| 0 <= i < p2.len() implies #[trigger] plain_group(p2[i]) by {
            assert(p2[i] == gs2[i]);
        }
        assert(groups_sig(p1) + tools_sig(ts1) =~= groups_sig(p1));
        assert(groups_sig(p2) + tools_sig(ts2) =~= groups_sig(p2));
        lemma_signature_keys(p1, ts1, p2, ts2);
        assert(groups_key(gs1) =~= groups_key(p1).push((gs1.last().id@, gs1.last().name@)));
        assert(groups_key(gs2) =~= groups_key(p2).push((gs2.last().id@, gs2.last().name@)));
    } else {
        assert(tools_key(ts1) =~= tools_key(ts2));
        assert(groups_key(gs1) =~= groups_key(gs2));
    }
}

} // verus!

verus! {

proof fn lemma_members_from_keys(ts1: Seq<Tool>, ts2: Seq<Tool>, gid: Seq<char>)
    requires
        tools_key(ts1) == tools_key(ts2),
        gid.len() > 0,
    ensures
        members(ts1, gid) == members(ts2, gid),
        loose(ts1) == loose(ts2),
        forall|k: int| 0 <= k < members(ts1, gid).len() ==> 0 <= #[trigger] members(ts1, gid)[k] < ts1.len(),
        forall|k: int| 0 <= k < loose(ts1).len() ==> 0 <= #[trigger] loose(ts1)[k] < ts1.len(),
    decreases ts1.len(),
{
    assert(ts1.len() == tools_key(ts1).len());
    assert(ts2.len() == tools_key(ts2).len());
    if ts1.len() > 0 {
        let n = ts1.len() - 1;
        assert(tools_key(ts1.drop_last()) =~= tools_key(ts1).drop_last());
        assert(tools_key(ts2.drop_last()) =~= tools_key(ts2).drop_last());
        lemma_members_from_keys(ts1.drop_last(), ts2.drop_last(), gid);
        assert(tools_key(ts1)[n] == tools_key(ts2)[n]);
        assert(group_of(ts1.last()) == group_of(ts2.last()));
        assert(in_group(ts1.last(), gid) == in_group(ts2.last(), gid));
    }
}

proof fn lemma_entries_from_keys(ts1: Seq<Tool>, ts2: Seq<Tool>, s: Seq<int>)
    requires
        tools_key(ts1) == tools_key(ts2),
        forall|k: int| 0 <= k < s.len() ==> 0 <= #[trigger] s[k] < ts1.len(),
    ensures
        entries_at(ts1, s) == entries_at(ts2, s),
{
    assert(ts1.len() == tools_key(ts1).len());
    assert(ts2.len() == tools_key(ts2).len());
    assert forall|k: int| 0 <= k < s.len() implies entries_at(ts1, s)[k] == entries_at(ts2, s)[k] by {
        assert(tools_key(ts1)[s[k]] == tools_key(ts2)[s[k]]);
    }
    assert(entries_at(ts1, s) =~= entries_at(ts2, s));
}

proof fn lemma_sections_from_keys(gs1: Seq<Group>, ts1: Seq<Tool>, gs2: Seq<Group>, ts2: Seq<Tool>)
    requires
        groups_key(gs1) == groups_key(gs2),
        tools_key(ts1) == tools_key(ts2),
        forall|i: int| 0 <= i < gs1.len() ==> #[trigger] gs1[i].id@.len() > 0,
    ensures
        tray_sections(gs1, ts1) == tray_sections(gs2, ts2),
    decreases gs1.len(),
{
    assert(gs1.len() == groups_key(gs1).len());
    assert(gs2.len() == groups_key(gs2).len());
    if gs1.len() > 0 {
        let n = gs1.len() - 1;
        assert(groups_key(gs1.drop_last()) =~= groups_key(gs1).drop_last());
        assert(groups_key(gs2.drop_last()) =~= groups_key(gs2).drop_last());
        lemma_sections_from_keys(gs1.drop_last(), ts1, gs2.drop_last(), ts2);
        assert(groups_key(gs1)[n] == groups_key(gs2)[n]);
        assert(gs1[n].id@.len() > 0);
        lemma_members_from_keys(ts1, ts2, gs1.last().id@);
        lemma_entries_from_keys(ts1, ts2, members(ts1, gs1.last().id@));
    }
}

/// Two configurations with the same tray fingerprint (`tray_signature`) have the same
/// tray menu (`tray_menu`): its submenus and its ungrouped tools. This holds where the
/// fingerprint can be read back, that is where no group id is empty and no field holds
/// the separators that the fingerprint puts between them (see `plain_tray_fields`).
pub proof fn lemma_same_signature_same_menu(c1: Config, c2: Config)
    requires
        plain_tray_fields(c1),
        plain_tray_fields(c2),
        signature(c1) == signature(c2),
    ensures
        tray_sections(c1.groups@, c1.tools@) == tray_sections(c2.groups@, c2.tools@),
        entries_at(c1.tools@, loose(c1.tools@)) == entries_at(c2.tools@, loose(c2.tools@)),
{
    lemma_signature_keys(c1.groups@, c1.tools@, c2.groups@, c2.tools@);
    assert forall|i: int| 0 <= i < c1.groups@.len() implies #[trigger] c1.groups@[i].id@.len() > 0 by {
        assert(plain_group(c1.groups@[i]));
    }
    lemma_sections_from_keys(c1.groups@, c1.tools@, c2.groups@, c2.tools@);
    lemma_members_from_keys(c1.tools@, c2.tools@, seq!['x']);
    lemma_entries_from_keys(c1.tools@, c2.tools@, loose(c1.tools@));
}

} // verus!

verus! {

proof fn lemma_member_listed(ts: Seq<Tool>, gid: Seq<char>, i: int)
    requires
        0 <= i < ts.len(),
        in_group(ts[i], gid),
    ensures
        members(ts, gid).contains(i),
    decreases ts.len(),
{
    if i < ts.len() - 1 {
        lemma_member_listed(ts.drop_last(), gid, i);
        let m = members(ts.drop_last(), gid);
        let j = choose|j: int| 0 <= j < m.len() && m[j] == i;
        if in_group(ts.last(), gid) {
            assert(members(ts, gid)[j] == i);
        } else {
            assert(members(ts, gid)[j] == i);
        }
    } else {
        let m = members(ts.drop_last(), gid);
        assert(members(ts, gid)[m.len() as int] == i);
    }
}

proof fn lemma_loose_listed(ts: Seq<Tool>, i: int)
    requires
        0 <= i < ts.len(),
        ungrouped(ts[i]),
    ensures
        loose(ts).contains(i),
    decreases ts.len(),
{
    if i < ts.len() - 1 {
        lemma_loose_listed(ts.drop_last(), i);
        let m = loose(ts.drop_last());
        let j = choose|j: int| 0 <= j < m.len() && m[j] == i;
        assert(loose(ts)[j] == i);
    } else {
        let m = loose(ts.drop_last());
        assert(loose(ts)[m.len() as int] == i);
    }
}

proof fn lemma_entry_listed(ts: Seq<Tool>, s: Seq<int>, i: int)
    requires
        0 <= i < ts.len(),
        s.contains(i),
    ensures
        entries_at(ts, s).contains(("t:"@ + ts[i].id@, ts[i].name@)),
{
    let j = choose|j: int| 0 <= j < s.len() && s[j] == i;
    assert(entries_at(ts, s)[j] == entry_of(ts[i]));
}

proof fn lemma_section_listed(gs: Seq<Group>, ts: Seq<Tool>, gi: int, ti: int)
    requires
        0 <= gi < gs.len(),
        0 <= ti < ts.len(),
        in_group(ts[ti], gs[gi].id@),
    ensures
        exists|k: int|
            0 <= k < tray_sections(gs, ts).len() && (#[trigger] tray_sections(gs, ts)[k]).0 == gs[gi].name@
                && tray_sections(gs, ts)[k].1.contains(("t:"@ + ts[ti].id@, ts[ti].name@)),
    decreases gs.len(),
{
    let prev = tray_sections(gs.drop_last(), ts);
    let m = members(ts, gs.last().id@);
    if gi < gs.len() - 1 {
        assert(gs.drop_last()[gi] == gs[gi]);
        lemma_section_listed(gs.drop_last(), ts, gi, ti);
        let k = choose|k: int|
            0 <= k < prev.len() && (#[trigger] prev[k]).0 == gs[gi].name@ && prev[k].1.contains(
                ("t:"@ + ts[ti].id@, ts[ti].name@),
            );
        assert(tray_sections(gs, ts)[k] == prev[k]);
    } else {
        lemma_member_listed(ts, gs.last().id@, ti);
        lemma_entry_listed(ts, m, ti);
        assert(m.len() > 0);
        let k = prev.len() as int;
        assert(tray_sections(gs, ts)[k] == (gs.last().name@, entries_at(ts, m)));
    }
}

/// Every tool is reachable from the tray: a tool whose group id names a group of the
/// configuration is listed (as `t:` and its id, with its name) in a submenu titled with
/// that group's name, so a group with a tool always has a submenu; a tool without a
/// group (none, or an empty id) is listed among the ungrouped tools.
pub proof fn lemma_every_tool_listed(c: Config, gi: int, ti: int)
    requires
        0 <= ti < c.tools@.len(),
    ensures
        (0 <= gi < c.groups@.len() && (c.tools@[ti].group_id matches Some(x) && x@
            == c.groups@[gi].id@)) ==> exists|k: int|
            0 <= k < tray_sections(c.groups@, c.tools@).len()
                && (#[trigger] tray_sections(c.groups@, c.tools@)[k]).0 == c.groups@[gi].name@
                && tray_sections(c.groups@, c.tools@)[k].1.contains(
                ("t:"@ + c.tools@[ti].id@, c.tools@[ti].name@),
            ),
        (c.tools@[ti].group_id is None || c.tools@[ti].group_id->0@.len() == 0) ==> entries_at(
            c.tools@,
            loose(c.tools@),
        ).contains(("t:"@ + c.tools@[ti].id@, c.tools@[ti].name@)),
{
    if 0 <= gi < c.groups@.len() && (c.tools@[ti].group_id matches Some(x) && x@
        == c.groups@[gi].id@) {
        lemma_section_listed(c.groups@, c.tools@, gi, ti);
    }
    if c.tools@[ti].group_id is None || c.tools@[ti].group_id->0@.len() == 0 {
        lemma_loose_listed(c.tools@, ti);
        lemma_entry_listed(c.tools@, loose(c.tools@), ti);
    }
}

proof fn lemma_members_sound(ts: Seq<Tool>, gid: Seq<char>)
    ensures
        forall|j: int|
            0 <= j < members(ts, gid).len() ==> 0 <= #[trigger] members(ts, gid)[j] < ts.len()
                && in_group(ts[members(ts, gid)[j]], gid),
        forall|a: int, b: int|
            0 <= a < b < members(ts, gid).len() ==> members(ts, gid)[a] < members(ts, gid)[b],
    decreases ts.len(),
{
    if ts.len() > 0 {
        lemma_members_sound(ts.drop_last(), gid);
        let m = members(ts.drop_last(), gid);
        assert forall|j: int| 0 <= j < m.len() implies ts.drop_last()[m[j]] == ts[m[j]] by {}
    }
}

/// Entry `j` of a submenu `(title, es)` is tool `a` of a group `gi` titled `title`, and
/// the next entry, if any, is a later tool of that group.
pub open spec fn entry_from(gs: Seq<Group>, ts: Seq<Tool>, title: Seq<char>, es: Seq<(Seq<char>, Seq<char>)>, j: int, gi: int, a: int) -> bool {
    &&& 0 <= gi < gs.len()
    &&& 0 <= a < ts.len()
    &&& es[j] == entry_of(ts[a])
    &&& gs[gi].name@ == title
    &&& in_group(ts[a], gs[gi].id@)
    &&& (j + 1 < es.len() ==> exists|c: int|
        a < c < ts.len() && es[j + 1] == entry_of(ts[c]) && #[trigger] in_group(ts[c], gs[gi].id@))
}

proof fn lemma_sections_sound(gs: Seq<Group>, ts: Seq<Tool>, k: int, j: int)
    requires
        0 <= k < tray_sections(gs, ts).len(),
        0 <= j < tray_sections(gs, ts)[k].1.len(),
    ensures
        exists|gi: int, a: int|
            #[trigger] entry_from(gs, ts, tray_sections(gs, ts)[k].0, tray_sections(gs, ts)[k].1, j, gi, a),
    decreases gs.len(),
{
    let prev = tray_sections(gs.drop_last(), ts);
    let g = gs.last();
    let m = members(ts, g.id@);
    if k < prev.len() {
        assert(tray_sections(gs, ts)[k] == prev[k]);
        lemma_sections_sound(gs.drop_last(), ts, k, j);
        let (gi, a) = choose|gi: int, a: int|
            #[trigger] entry_from(gs.drop_last(), ts, prev[k].0, prev[k].1, j, gi, a);
        assert(gs.drop_last()[gi] == gs[gi]);
        assert(entry_from(gs, ts, prev[k].0, prev[k].1, j, gi, a));
        assert(entry_from(gs, ts, tray_sections(gs, ts)[k].0, tray_sections(gs, ts)[k].1, j, gi, a));
    } else {
        lemma_members_sound(ts, g.id@);
        assert(m.len() > 0);
        assert(tray_sections(gs, ts)[k] == (g.name@, entries_at(ts, m)));
        let es = entries_at(ts, m);
        let a = m[j];
        assert(es[j] == entry_of(ts[a]));
        let gi = gs.len() - 1;
        assert(gs[gi] == g);
        if j + 1 < es.len() {
            let c = m[j + 1];
            assert(es[j + 1] == entry_of(ts[c]));
            assert(in_group(ts[c], gs[gi].id@));
        }
        assert(entry_from(gs, ts, g.name@, es, j, gi, a));
        assert(entry_from(gs, ts, tray_sections(gs, ts)[k].0, tray_sections(gs, ts)[k].1, j, gi, a));
    }
}

/// Every entry of a tray submenu is a tool of a group the submenu is titled after
/// (`t:` and its id, with its name), and the entries of a submenu come in configuration
/// order: each next entry is a later tool of that group.
pub proof fn lemma_listed_tools_belong(c: Config, k: int, j: int)
    requires
        0 <= k < tray_sections(c.groups@, c.tools@).len(),
        0 <= j < tray_sections(c.groups@, c.tools@)[k].1.len(),
    ensures
        exists|gi: int, ti: int|
            #![trigger c.groups@[gi], c.tools@[ti]]
            0 <= gi < c.groups@.len() && 0 <= ti < c.tools@.len()
                && tray_sections(c.groups@, c.tools@)[k].1[j] == ("t:"@ + c.tools@[ti].id@, c.tools@[ti].name@)
                && c.groups@[gi].name@ == tray_sections(c.groups@, c.tools@)[k].0
                && (c.tools@[ti].group_id matches Some(x) && x@ == c.groups@[gi].id@)
                && (j + 1 < tray_sections(c.groups@, c.tools@)[k].1.len() ==> exists|tn: int|
                #![trigger c.tools@[tn]]
                ti < tn < c.tools@.len() && tray_sections(c.groups@, c.tools@)[k].1[j + 1] == (
                    "t:"@ + c.tools@[tn].id@,
                    c.tools@[tn].name@,
                ) && (c.tools@[tn].group_id matches Some(y) && y@ == c.groups@[gi].id@)),
{
    let ss = tray_sections(c.groups@, c.tools@);
    lemma_sections_sound(c.groups@, c.tools@, k, j);
    let (gi, a) = choose|gi: int, a: int| #[trigger] entry_from(c.groups@, c.tools@, ss[k].0, ss[k].1, j, gi, a);
    if j + 1 < ss[k].1.len() {
        let cc = choose|cc: int|
            a < cc < c.tools@.len() && ss[k].1[j + 1] == entry_of(c.tools@[cc]) && #[trigger] in_group(
                c.tools@[cc],
                c.groups@[gi].id@,
            );
        assert(ss[k].1[j + 1] == ("t:"@ + c.tools@[cc].id@, c.tools@[cc].name@));
    }
    assert(ss[k].1[j] == ("t:"@ + c.tools@[a].id@, c.tools@[a].name@));
}

} // verus!
