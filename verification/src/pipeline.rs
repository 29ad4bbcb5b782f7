//! The per-tool update decision: read the installed version from probe
//! output, read the latest version from the release tag, decide whether an
//! update is needed, and pick the asset to download.
use vstd::prelude::*;

use crate::probe::probe_installed;
use crate::probe::spec_probe_version;
use crate::tool::ReleaseInfo;
use crate::tool::Tool;
use crate::tool::ToolKind;
use crate::tool::names_of;
use crate::tool::select_asset;
use crate::tool::spec_select;
use crate::version::ParseError;
use crate::version::SemanticVersion;
use crate::version::parse_chars;
use crate::version::spec_ge;
use crate::version::spec_parse;
use crate::version::version_ge;
use crate::text::chars_of;

verus! {

/// Outcome of comparing the installed version against the latest one.
#[derive(PartialEq, Eq, Structural, Clone, Copy, Debug)]
pub enum UpdateDecision {
    NoLocalInstall,
    UpToDate,
    UpdateAvailable,
}

/// What one run should do for a tool: nothing, or download one asset.
#[derive(PartialEq, Eq, Structural, Clone, Copy, Debug)]
pub enum UpdatePlan {
    UpToDate,
    Download { asset_index: usize },
}

/// Why no plan could be made: the release tag carried no version, or no
/// asset fits the platform.
#[derive(PartialEq, Eq, Structural, Clone, Copy, Debug)]
pub enum PlanError {
    InvalidTag,
    NoCompatibleAsset,
}

/// `s` with every leading `c` removed.
pub open spec fn strip_leading(s: Seq<char>, c: char) -> Seq<char>
    decreases s.len(),
{
    if s.len() > 0 && s[0] == c {
        strip_leading(s.drop_first(), c)
    } else {
        s
    }
}

/// The decision: no local install counts as needing the update, an installed
/// version at least the latest is up to date.
pub open spec fn spec_decide(installed: Option<SemanticVersion>, latest: SemanticVersion) -> UpdateDecision {
    match installed {
        None => UpdateDecision::NoLocalInstall,
        Some(v) => if spec_ge(v, latest) {
            UpdateDecision::UpToDate
        } else {
            UpdateDecision::UpdateAvailable
        },
    }
}

/// The whole per-tool plan as a function of the probe output, the release
/// tag and the asset names.
pub open spec fn spec_plan_update(
    kind: ToolKind,
    prefix: Seq<char>,
    output: Option<Seq<char>>,
    tag: Seq<char>,
    names: Seq<Seq<char>>,
) -> Result<UpdatePlan, PlanError> {
    let installed = match output {
        None => None,
        Some(o) => spec_probe_version(o, prefix),
    };
    match spec_parse(strip_leading(tag, 'v')) {
        None => Err(PlanError::InvalidTag),
        Some(latest) => if spec_decide(installed, latest) is UpToDate {
            Ok(UpdatePlan::UpToDate)
        } else {
            match spec_select(kind, names) {
                Some(i) => Ok(UpdatePlan::Download { asset_index: i as usize }),
                None => Err(PlanError::NoCompatibleAsset),
            }
        },
    }
}

/// Parse a release tag: leading version markers (`v`) are stripped, the rest
/// must be a numeric `major.minor.patch` triple.
pub fn parse_tag(tag: &str) -> (r: Result<SemanticVersion, ParseError>)
    ensures
        match r {
            Ok(v) => spec_parse(strip_leading(tag@, 'v')) == Some(v),
            Err(_) => spec_parse(strip_leading(tag@, 'v')) is None,
        },
{
    let t = chars_of(tag);
    let n = t.len();
    let mut k: usize = 0;
    proof {
        assert(t@.subrange(0, n as int) =~= t@);
    }
    while k < n && t[k] == 'v'
        invariant
            n == t@.len(),
            k <= n,
            strip_leading(t@, 'v') == strip_leading(t@.subrange(k as int, n as int), 'v'),
        decreases n - k,
    {
        proof {
            assert(t@.subrange(k as int, n as int).drop_first() =~= t@.subrange(
                k + 1,
                n as int,
            ));
        }
        k = k + 1;
    }
    proof {
        assert(strip_leading(t@, 'v') == t@.subrange(k as int, n as int));
    }
    let mut rest: Vec<char> = Vec::new();
    let mut m: usize = k;
    while m < n
        invariant
            k <= m <= n == t@.len(),
            rest@ == t@.subrange(k as int, m as int),
        decreases n - m,
    {
        rest.push(t[m]);
        m = m + 1;
        proof {
            assert(rest@ =~= t@.subrange(k as int, m as int));
        }
    }
    match parse_chars(&rest) {
        Some(v) => Ok(v),
        None => Err(ParseError),
    }
}

/// Compare installed against latest and decide.
pub fn decide_update(installed: Option<SemanticVersion>, latest: SemanticVersion) -> (r:
    UpdateDecision)
    ensures
        r == spec_decide(installed, latest),
{
    match installed {
        None => UpdateDecision::NoLocalInstall,
        Some(v) => if version_ge(v, latest) {
            UpdateDecision::UpToDate
        } else {
            UpdateDecision::UpdateAvailable
        },
    }
}

/// Plan one tool's update from the probe output and the fetched release:
/// an unreadable tag is an error; an installed version at least the latest
/// ends the run with no download; otherwise the first compatible asset is
/// the one to download, and its absence is an error.
pub fn plan_update(tool: &Tool, probe_output: Option<&str>, release: &ReleaseInfo) -> (r: Result<
    UpdatePlan,
    PlanError,
>)
    ensures
        r == spec_plan_update(
            tool.kind,
            tool.version_prefix@,
            match probe_output {
                None => None::<Seq<char>>,
                Some(o) => Some(o@),
            },
            release.tag@,
            names_of(release.assets@),
        ),
{
    let installed = probe_installed(tool, probe_output);
    let latest = match parse_tag(release.tag.as_str()) {
        Ok(v) => v,
        Err(_) => {
            return Err(PlanError::InvalidTag);
        },
    };
    let decision = decide_update(installed, latest);
    if decision == UpdateDecision::UpToDate {
        return Ok(UpdatePlan::UpToDate);
    }
    match select_asset(tool, &release.assets) {
        Some(i) => Ok(UpdatePlan::Download { asset_index: i }),
        None => Err(PlanError::NoCompatibleAsset),
    }
}

} // verus!
