use updatekit::archive::EntryPlan;
use updatekit::archive::plan_entry;
use updatekit::pipeline::PlanError;
use updatekit::pipeline::UpdateDecision;
use updatekit::pipeline::UpdatePlan;
use updatekit::pipeline::decide_update;
use updatekit::pipeline::parse_tag;
use updatekit::pipeline::plan_update;
use updatekit::probe::extract_version;
use updatekit::probe::probe_installed;
use updatekit::tool::ReleaseAsset;
use updatekit::tool::ReleaseInfo;
use updatekit::tool::Tool;
use updatekit::tool::select_asset;
use updatekit::version::SemanticVersion;
use updatekit::version::VersionOrder;
use updatekit::version::compare;
use updatekit::version::parse;

fn ver(major: u64, minor: u64, patch: u64) -> SemanticVersion {
    SemanticVersion { major, minor, patch }
}

fn release(tag: &str, names: &[&str]) -> ReleaseInfo {
    ReleaseInfo {
        tag: tag.to_string(),
        assets: names
            .iter()
            .map(|n| ReleaseAsset {
                name: n.to_string(),
                url: format!("https://example.invalid/{}", n),
            })
            .collect(),
    }
}

const POWERSHELL_ASSETS: [&str; 3] = [
    "powershell-7.4.1-win-x64.zip",
    "powershell-7.4.1-win-x64-symbols.zip",
    "powershell-7.4.1-linux-x64.tar.gz",
];

#[test]
fn parse_accepts_plain_triples() {
    assert_eq!(parse("7.4.1"), Ok(ver(7, 4, 1)));
    assert_eq!(parse("0.0.0"), Ok(ver(0, 0, 0)));
    assert_eq!(parse("10.20.30"), Ok(ver(10, 20, 30)));
    assert_eq!(parse("18446744073709551615.0.0"), Ok(ver(u64::MAX, 0, 0)));
}

#[test]
fn parse_rejects_malformed_text() {
    assert!(parse("").is_err());
    assert!(parse("abc").is_err());
    assert!(parse("7").is_err());
    assert!(parse("7.4").is_err());
    assert!(parse("7.4.").is_err());
    assert!(parse(".4.1").is_err());
    assert!(parse("7..1").is_err());
    assert!(parse("7.4.x").is_err());
    assert!(parse("7.4.1.2").is_err());
    assert!(parse("07.4.1").is_err());
    assert!(parse("7.4.1-preview.1").is_err());
    assert!(parse("7. 4.1").is_err());
    assert!(parse("18446744073709551616.0.0").is_err());
}

#[test]
fn compare_orders_lexicographically() {
    assert_eq!(compare(ver(7, 3, 0), ver(7, 4, 1)), VersionOrder::Less);
    assert_eq!(compare(ver(7, 4, 1), ver(7, 3, 0)), VersionOrder::Greater);
    assert_eq!(compare(ver(7, 4, 1), ver(7, 4, 1)), VersionOrder::Equal);
    assert_eq!(compare(ver(2, 0, 0), ver(1, 9, 9)), VersionOrder::Greater);
    assert_eq!(compare(ver(1, 2, 3), ver(1, 2, 4)), VersionOrder::Less);
    assert_eq!(compare(ver(1, 3, 0), ver(1, 2, 9)), VersionOrder::Greater);
}

#[test]
fn compare_agrees_with_semver_crate() {
    let triples = [
        (0u64, 0u64, 0u64),
        (1, 2, 3),
        (1, 2, 4),
        (1, 3, 0),
        (2, 0, 0),
        (7, 3, 0),
        (7, 4, 1),
        (10, 0, 9),
    ];
    for &(a0, a1, a2) in &triples {
        for &(b0, b1, b2) in &triples {
            let ours = compare(ver(a0, a1, a2), ver(b0, b1, b2));
            let sa = semver::Version::new(a0, a1, a2);
            let sb = semver::Version::new(b0, b1, b2);
            let theirs = match sa.cmp(&sb) {
                std::cmp::Ordering::Less => VersionOrder::Less,
                std::cmp::Ordering::Equal => VersionOrder::Equal,
                std::cmp::Ordering::Greater => VersionOrder::Greater,
            };
            assert_eq!(ours, theirs);
        }
    }
}

#[test]
fn parse_agrees_with_semver_crate_on_triples() {
    for text in ["7.4.1", "0.1.0", "18446744073709551615.2.3"] {
        let ours = parse(text).unwrap();
        let theirs = semver::Version::parse(text).unwrap();
        assert_eq!(ours.major, theirs.major);
        assert_eq!(ours.minor, theirs.minor);
        assert_eq!(ours.patch, theirs.patch);
    }
    for text in ["", "1.2", "01.2.3", "1.2.3.4", "x.y.z"] {
        assert!(parse(text).is_err());
        assert!(semver::Version::parse(text).is_err());
    }
}

#[test]
fn parse_tag_strips_version_marker() {
    assert_eq!(parse_tag("v7.4.1"), Ok(ver(7, 4, 1)));
    assert_eq!(parse_tag("7.4.1"), Ok(ver(7, 4, 1)));
    assert_eq!(parse_tag("vv1.2.3"), Ok(ver(1, 2, 3)));
    assert!(parse_tag("v7.4").is_err());
    assert!(parse_tag("release-7.4.1").is_err());
    assert!(parse_tag("v").is_err());
}

#[test]
fn powershell_descriptor_fields() {
    let t = Tool::powershell();
    assert_eq!(t.name, "PowerShell");
    assert_eq!(t.repo, "PowerShell/PowerShell");
    assert_eq!(t.exe, "pwsh.exe");
    assert_eq!(t.version_prefix, "PowerShell ");
}

#[test]
fn uv_descriptor_fields() {
    let t = Tool::uv();
    assert_eq!(t.name, "UV");
    assert_eq!(t.repo, "astral-sh/uv");
    assert_eq!(t.exe, "uv.exe");
    assert_eq!(t.version_prefix, "uv ");
}

#[test]
fn powershell_asset_predicate() {
    let t = Tool::powershell();
    assert!(t.matches_asset("powershell-7.4.1-win-x64.zip"));
    assert!(t.matches_asset("PowerShell-7.4.1-WIN-X64.ZIP"));
    assert!(!t.matches_asset("powershell-7.4.1-win-x64-symbols.zip"));
    assert!(!t.matches_asset("powershell-7.4.1-win-arm64.zip"));
    assert!(!t.matches_asset("powershell-7.4.1-linux-x64.tar.gz"));
    assert!(!t.matches_asset("powershell-7.4.1-win-x64.msi"));
}

#[test]
fn uv_asset_predicate() {
    let t = Tool::uv();
    assert!(t.matches_asset("uv-x86_64-pc-windows-msvc.zip"));
    assert!(t.matches_asset("UV-X86_64-PC-WINDOWS-MSVC.ZIP"));
    assert!(!t.matches_asset("uv-aarch64-pc-windows-msvc.zip"));
    assert!(!t.matches_asset("uv-x86_64-unknown-linux-gnu.tar.gz"));
    assert!(!t.matches_asset("uv-x86_64-pc-windows-msvc.zip.sha256"));
}

#[test]
fn selection_picks_first_match_in_registry_order() {
    let t = Tool::powershell();
    let rel = release("v7.4.1", &POWERSHELL_ASSETS);
    assert_eq!(select_asset(&t, &rel.assets), Some(0));
}

#[test]
fn selection_is_deterministic() {
    let t = Tool::powershell();
    let rel = release("v7.4.1", &POWERSHELL_ASSETS);
    let first = select_asset(&t, &rel.assets);
    let second = select_asset(&t, &rel.assets);
    assert_eq!(first, second);
    assert_eq!(first, Some(0));
}

#[test]
fn selection_reports_no_match() {
    let t = Tool::uv();
    let rel = release("0.5.0", &POWERSHELL_ASSETS);
    assert_eq!(select_asset(&t, &rel.assets), None);
}

#[test]
fn probe_absent_output_is_none() {
    let t = Tool::powershell();
    assert_eq!(probe_installed(&t, None), None);
}

#[test]
fn probe_output_without_version_is_none() {
    let t = Tool::powershell();
    assert_eq!(probe_installed(&t, Some("command not found")), None);
    assert_eq!(probe_installed(&t, Some("")), None);
    assert_eq!(probe_installed(&t, Some("PowerShell")), None);
}

#[test]
fn probe_output_with_unparsable_capture_is_none() {
    let t = Tool::powershell();
    assert_eq!(probe_installed(&t, Some("PowerShell 7.4")), None);
    assert_eq!(probe_installed(&t, Some("PowerShell ...")), None);
    assert_eq!(probe_installed(&t, Some("PowerShell 7.4.1.2")), None);
}

#[test]
fn probe_reads_version_from_output() {
    let pwsh = Tool::powershell();
    assert_eq!(probe_installed(&pwsh, Some("PowerShell 7.4.1")), Some(ver(7, 4, 1)));
    assert_eq!(extract_version(&pwsh, "PowerShell 7.3.0\n"), Some(ver(7, 3, 0)));
    let uv = Tool::uv();
    assert_eq!(extract_version(&uv, "uv 0.5.11 (abc123 2024-12-01)"), Some(ver(0, 5, 11)));
}

#[test]
fn probe_skips_prefix_without_capture() {
    let t = Tool::powershell();
    assert_eq!(
        extract_version(&t, "PowerShell Preview\nPowerShell 7.5.0"),
        Some(ver(7, 5, 0))
    );
}

#[test]
fn decide_without_install_wants_update() {
    assert_eq!(decide_update(None, ver(7, 4, 1)), UpdateDecision::NoLocalInstall);
}

#[test]
fn decide_equal_or_newer_is_up_to_date() {
    assert_eq!(decide_update(Some(ver(7, 4, 1)), ver(7, 4, 1)), UpdateDecision::UpToDate);
    assert_eq!(decide_update(Some(ver(7, 5, 0)), ver(7, 4, 1)), UpdateDecision::UpToDate);
}

#[test]
fn decide_older_wants_update() {
    assert_eq!(
        decide_update(Some(ver(7, 3, 0)), ver(7, 4, 1)),
        UpdateDecision::UpdateAvailable
    );
}

#[test]
fn outdated_install_downloads_matching_asset() {
    let t = Tool::powershell();
    let rel = release("v7.4.1", &POWERSHELL_ASSETS);
    let plan = plan_update(&t, Some("PowerShell 7.3.0"), &rel);
    assert_eq!(plan, Ok(UpdatePlan::Download { asset_index: 0 }));
}

#[test]
fn current_install_downloads_nothing() {
    let t = Tool::powershell();
    let rel = release("v7.4.1", &[]);
    let plan = plan_update(&t, Some("PowerShell 7.4.1"), &rel);
    assert_eq!(plan, Ok(UpdatePlan::UpToDate));
}

#[test]
fn absent_executable_still_updates() {
    let t = Tool::powershell();
    let rel = release("v7.4.1", &POWERSHELL_ASSETS);
    let plan = plan_update(&t, None, &rel);
    assert_eq!(plan, Ok(UpdatePlan::Download { asset_index: 0 }));
}

#[test]
fn unreadable_tag_is_an_error() {
    let t = Tool::powershell();
    let rel = release("nightly", &POWERSHELL_ASSETS);
    assert_eq!(plan_update(&t, None, &rel), Err(PlanError::InvalidTag));
}

#[test]
fn missing_compatible_asset_is_an_error() {
    let t = Tool::powershell();
    let rel = release("v7.4.1", &["powershell-7.4.1-linux-x64.tar.gz"]);
    assert_eq!(plan_update(&t, None, &rel), Err(PlanError::NoCompatibleAsset));
}

fn components(plan: &EntryPlan) -> Option<Vec<String>> {
    match plan {
        EntryPlan::Reject => None,
        EntryPlan::Directory(v) => Some(v.clone()),
        EntryPlan::File(v) => Some(v.clone()),
    }
}

#[test]
fn traversal_entries_are_rejected() {
    assert!(matches!(plan_entry("../../evil.txt"), EntryPlan::Reject));
    assert!(matches!(plan_entry("a/../evil.txt"), EntryPlan::Reject));
    assert!(matches!(plan_entry(".."), EntryPlan::Reject));
    assert!(matches!(plan_entry("a/.."), EntryPlan::Reject));
}

#[test]
fn absolute_and_drive_entries_are_rejected() {
    assert!(matches!(plan_entry("/etc/evil"), EntryPlan::Reject));
    assert!(matches!(plan_entry("c:\\evil.txt"), EntryPlan::Reject));
    assert!(matches!(plan_entry("a\\b"), EntryPlan::Reject));
    assert!(matches!(plan_entry(""), EntryPlan::Reject));
    assert!(matches!(plan_entry("."), EntryPlan::Reject));
}

#[test]
fn plain_entries_are_planned_in_place() {
    match plan_entry("pwsh/pwsh.exe") {
        EntryPlan::File(v) => assert_eq!(v, vec!["pwsh".to_string(), "pwsh.exe".to_string()]),
        _ => panic!("expected a file plan"),
    }
    match plan_entry("pwsh/modules/") {
        EntryPlan::Directory(v) => {
            assert_eq!(v, vec!["pwsh".to_string(), "modules".to_string()])
        }
        _ => panic!("expected a directory plan"),
    }
}

#[test]
fn redundant_separators_are_normalized() {
    assert_eq!(
        components(&plan_entry("a/./b")),
        Some(vec!["a".to_string(), "b".to_string()])
    );
    assert_eq!(
        components(&plan_entry("a//b")),
        Some(vec!["a".to_string(), "b".to_string()])
    );
}

#[test]
fn planned_components_never_escape() {
    let names = [
        "../../evil.txt",
        "a/../../b",
        "ok/file.bin",
        "deep/dir/tree/",
        "/abs",
        "c:evil",
        "..",
        "x/./y/z",
    ];
    for name in names {
        if let Some(comps) = components(&plan_entry(name)) {
            for c in comps {
                assert!(!c.is_empty());
                assert_ne!(c, ".");
                assert_ne!(c, "..");
                assert!(!c.contains('/'));
                assert!(!c.contains('\\'));
                assert!(!c.contains(':'));
            }
        }
    }
}
