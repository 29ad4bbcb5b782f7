//! Managed tools: their identity, the platform predicate that picks the one
//! correct release asset, and first-match selection over a release's assets.
use vstd::prelude::*;

use crate::text::seq_contains;
use crate::text::seq_ends_with;
use crate::text::chars_of;
use crate::text::contains_exec;
use crate::text::ends_with_exec;

verus! {

/// The closed set of managed tools.
#[derive(PartialEq, Eq, Structural, Clone, Copy, Debug)]
pub enum ToolKind {
    PowerShell,
    Uv,
}

/// Static configuration for one managed tool: display name, registry
/// identity, local executable name, and the literal prefix after which the
/// probe captures a run of digits and dots as the installed version.
pub struct Tool {
    pub kind: ToolKind,
    pub name: String,
    pub repo: String,
    pub exe: String,
    pub version_prefix: String,
}

/// One downloadable file attached to a release.
pub struct ReleaseAsset {
    pub name: String,
    pub url: String,
}

/// Latest-release metadata fetched from the registry: the tag and the
/// registry-ordered asset list.
pub struct ReleaseInfo {
    pub tag: String,
    pub assets: Vec<ReleaseAsset>,
}

/// The platform predicate over an asset name, compared case-insensitively:
/// which asset belongs to this tool on 64-bit x86 Windows.
pub open spec fn asset_matches(kind: ToolKind, name: Seq<char>) -> bool {
    match kind {
        ToolKind::PowerShell => {
            &&& seq_contains(name, "win"@, true)
            &&& seq_contains(name, "x64"@, true)
            &&& seq_ends_with(name, ".zip"@, true)
            &&& !seq_contains(name, "symbols"@, true)
            &&& !seq_contains(name, "arm"@, true)
        },
        ToolKind::Uv => {
            &&& seq_contains(name, "windows"@, true)
            &&& seq_contains(name, "x86_64"@, true)
            &&& seq_ends_with(name, ".zip"@, true)
        },
    }
}

/// The asset names of a release, in registry order.
pub open spec fn names_of(assets: Seq<ReleaseAsset>) -> Seq<Seq<char>> {
    assets.map_values(|a: ReleaseAsset| a.name@)
}

/// Index of the first name at or after `i` that the predicate accepts.
pub open spec fn spec_select_from(kind: ToolKind, names: Seq<Seq<char>>, i: int) -> Option<int>
    decreases names.len() - i,
{
    if !(0 <= i < names.len()) {
        None
    } else if asset_matches(kind, names[i]) {
        Some(i)
    } else {
        spec_select_from(kind, names, i + 1)
    }
}

/// Index of the first name in registry order that the predicate accepts.
pub open spec fn spec_select(kind: ToolKind, names: Seq<Seq<char>>) -> Option<int> {
    spec_select_from(kind, names, 0)
}

impl Tool {
    /// The PowerShell descriptor.
    pub fn powershell() -> (t: Tool)
        ensures
            t.kind == ToolKind::PowerShell,
            t.name@ == "PowerShell"@,
            t.repo@ == "PowerShell/PowerShell"@,
            t.exe@ == "pwsh.exe"@,
            t.version_prefix@ == "PowerShell "@,
    {
        Tool {
            kind: ToolKind::PowerShell,
            name: "PowerShell".to_owned(),
            repo: "PowerShell/PowerShell".to_owned(),
            exe: "pwsh.exe".to_owned(),
            version_prefix: "PowerShell ".to_owned(),
        }
    }

    /// The UV descriptor.
    pub fn uv() -> (t: Tool)
        ensures
            t.kind == ToolKind::Uv,
            t.name@ == "UV"@,
            t.repo@ == "astral-sh/uv"@,
            t.exe@ == "uv.exe"@,
            t.version_prefix@ == "uv "@,
    {
        Tool {
            kind: ToolKind::Uv,
            name: "UV".to_owned(),
            repo: "astral-sh/uv".to_owned(),
            exe: "uv.exe".to_owned(),
            version_prefix: "uv ".to_owned(),
        }
    }

    /// Does the named asset belong to this tool's platform?
    pub fn matches_asset(&self, name: &str) -> (r: bool)
        ensures
            r == asset_matches(self.kind, name@),
    {
        let t = chars_of(name);
        match self.kind {
            ToolKind::PowerShell => {
                contains_exec(&t, &chars_of("win"), true) && contains_exec(
                    &t,
                    &chars_of("x64"),
                    true,
                ) && ends_with_exec(&t, &chars_of(".zip"), true) && !contains_exec(
                    &t,
                    &chars_of("symbols"),
                    true,
                ) && !contains_exec(&t, &chars_of("arm"), true)
            },
            ToolKind::Uv => {
                contains_exec(&t, &chars_of("windows"), true) && contains_exec(
                    &t,
                    &chars_of("x86_64"),
                    true,
                ) && ends_with_exec(&t, &chars_of(".zip"), true)
            },
        }
    }
}

/// Pick the first asset in registry order that the tool's predicate accepts.
pub fn select_asset(tool: &Tool, assets: &Vec<ReleaseAsset>) -> (r: Option<usize>)
    ensures
        match r {
            Some(i) => spec_select(tool.kind, names_of(assets@)) == Some(i as int),
            None => spec_select(tool.kind, names_of(assets@)) is None,
        },
{
    let ghost names = names_of(assets@);
    let mut i: usize = 0;
    while i < assets.len()
        invariant
            i <= assets@.len(),
            names == names_of(assets@),
            spec_select_from(tool.kind, names, 0) == spec_select_from(tool.kind, names, i as int),
        decreases assets@.len() - i,
    {
        proof {
            assert(names[i as int] == assets@[i as int].name@);
        }
        if tool.matches_asset(assets[i].name.as_str()) {
            return Some(i);
        }
        i = i + 1;
    }
    None
}

/// Helper for `lemma_select_first_match`, inductive over the start index.
proof fn lemma_select_from_first_match(kind: ToolKind, names: Seq<Seq<char>>, i: int)
    requires
        0 <= i,
    ensures
        match spec_select_from(kind, names, i) {
            Some(k) => i <= k < names.len() && asset_matches(kind, names[k]) && (forall|j: int|
                i <= j < k ==> !#[trigger] asset_matches(kind, names[j])),
            None => forall|j: int| i <= j < names.len() ==> !#[trigger] asset_matches(
                kind,
                names[j],
            ),
        },
    decreases names.len() - i,
{
    if 0 <= i < names.len() && !asset_matches(kind, names[i]) {
        lemma_select_from_first_match(kind, names, i + 1);
    }
}

/// Selection is a pure function of the name list and the policy, and is
/// order-stable: it yields exactly the first name the predicate accepts, and
/// `None` exactly when no name is accepted.
pub proof fn lemma_select_first_match(kind: ToolKind, names: Seq<Seq<char>>)
    ensures
        match spec_select(kind, names) {
            Some(k) => 0 <= k < names.len() && asset_matches(kind, names[k]) && (forall|j: int|
                0 <= j < k ==> !#[trigger] asset_matches(kind, names[j])),
            None => forall|j: int| 0 <= j < names.len() ==> !#[trigger] asset_matches(
                kind,
                names[j],
            ),
        },
{
    lemma_select_from_first_match(kind, names, 0);
}

} // verus!
