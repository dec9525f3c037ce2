//! The configuration model: tools, runtime environments, groups and settings.

use vstd::prelude::*;
use crate::text::{owned, str_eq};

verus! {

/// What a tool card launches.
#[derive(Clone, Copy, Debug, PartialEq, Eq, Structural)]
pub enum ToolKind {
    TerminalPython,
    TerminalJava,
    TerminalExe,
    GuiJava,
    GuiExe,
    Web,
    /// A kind this version does not know (written by a later version, or edited by hand).
    Unknown,
}

impl Default for ToolKind {
    fn default() -> (k: Self)
        ensures
            k == ToolKind::TerminalPython,
    {
        ToolKind::TerminalPython
    }
}

/// The kind of a runtime environment.
#[derive(Clone, Copy, Debug, PartialEq, Eq, Structural)]
pub enum EnvKind {
    Java,
    Python,
    /// A kind this version does not know.
    Unknown,
}

impl Default for EnvKind {
    fn default() -> (k: Self)
        ensures
            k == EnvKind::Java,
    {
        EnvKind::Java
    }
}

/// User interface settings.
#[derive(Clone, Debug)]
pub struct Settings {
    /// `light` or `dark`.
    pub theme: String,
    /// `exit` or `tray`.
    pub close_action: String,
}

/// A configured JDK or Python installation.
#[derive(Clone, Debug)]
pub struct Env {
    pub id: String,
    pub kind: EnvKind,
    pub name: String,
    /// JDK root directory, or the directory that holds `python.exe`.
    pub path: String,
}

/// A group of tool cards.
#[derive(Clone, Debug)]
pub struct Group {
    pub id: String,
    pub name: String,
}

/// A tool card.
#[derive(Clone, Debug)]
pub struct Tool {
    pub id: String,
    pub name: String,
    pub tool_type: ToolKind,
    /// Script, JAR or EXE path, or the URL of a web tool.
    pub target: String,
    pub args: String,
    pub env_id: Option<String>,
    pub group_id: Option<String>,
    /// File name of the tool's icon in the icons directory.
    pub icon: Option<String>,
    pub description: String,
    pub sort: i64,
}

/// The whole configuration.
#[derive(Clone, Debug)]
pub struct Config {
    pub version: u32,
    pub settings: Settings,
    pub envs: Vec<Env>,
    pub groups: Vec<Group>,
    pub tools: Vec<Tool>,
}

/// What an import hands back: the normalised configuration and what was corrected.
#[derive(Clone, Debug)]
pub struct ImportResult {
    pub config: Config,
    pub warnings: Vec<String>,
}

/// The pre-launch status of one tool card.
#[derive(Clone, Debug)]
pub struct CheckResult {
    pub ok: bool,
    /// Why the tool cannot be launched (empty when `ok`).
    pub missing: String,
}

/// The outcome of probing a directory as a runtime environment.
#[derive(Clone, Debug)]
pub struct EnvProbe {
    /// Suggested display name, such as `JDK 17.0.9`.
    pub name: String,
}

/// The default theme.
pub open spec fn spec_default_theme() -> Seq<char> {
    "light"@
}

/// The default close action.
pub open spec fn spec_default_close_action() -> Seq<char> {
    "exit"@
}

/// The theme that `sanitize` keeps: a known one, else the default.
pub open spec fn sanitized_theme(t: Seq<char>) -> Seq<char> {
    if t == "light"@ || t == "dark"@ {
        t
    } else {
        spec_default_theme()
    }
}

/// The close action that `sanitize` keeps: a known one, else the default.
pub open spec fn sanitized_close_action(a: Seq<char>) -> Seq<char> {
    if a == "exit"@ || a == "tray"@ {
        a
    } else {
        spec_default_close_action()
    }
}

/// The default theme, `light`.
pub fn default_theme() -> (s: String)
    ensures
        s@ == spec_default_theme(),
{
    owned("light")
}

/// The default close action, `exit`.
pub fn default_close_action() -> (s: String)
    ensures
        s@ == spec_default_close_action(),
{
    owned("exit")
}

/// The configuration format version written by this library.
pub fn default_version() -> (v: u32)
    ensures
        v == 1,
{
    1
}

impl Default for Settings {
    fn default() -> (s: Self)
        ensures
            s.theme@ == spec_default_theme(),
            s.close_action@ == spec_default_close_action(),
    {
        Settings { theme: default_theme(), close_action: default_close_action() }
    }
}

impl Settings {
    /// Replaces an unknown theme or close action by its default.
    pub fn sanitize(&mut self)
        ensures
            final(self).theme@ == sanitized_theme(old(self).theme@),
            final(self).close_action@ == sanitized_close_action(old(self).close_action@),
    {
        if !(str_eq(self.theme.as_str(), "light") || str_eq(self.theme.as_str(), "dark")) {
            self.theme = default_theme();
        }
        if !(str_eq(self.close_action.as_str(), "exit") || str_eq(
            self.close_action.as_str(),
            "tray",
        )) {
            self.close_action = default_close_action();
        }
    }

    /// Whether closing the main window only hides it to the tray.
    pub fn closes_to_tray(&self) -> (b: bool)
        ensures
            b == (self.close_action@ == "tray"@),
    {
        str_eq(self.close_action.as_str(), "tray")
    }
}

impl Default for Config {
    fn default() -> (c: Self)
        ensures
            c.version == 1,
            c.settings.theme@ == spec_default_theme(),
            c.settings.close_action@ == spec_default_close_action(),
            c.envs@.len() == 0,
            c.groups@.len() == 0,
            c.tools@.len() == 0,
    {
        Config {
            version: default_version(),
            settings: Settings::default(),
            envs: Vec::new(),
            groups: Vec::new(),
            tools: Vec::new(),
        }
    }
}

} // verus!
