//! Installed-version probing: scan a tool's version output for the literal
//! prefix followed by a run of digits and dots, and parse that run. Every
//! failure along the way yields `None`, never an error: an undeterminable
//! installed version is treated as "not installed".
use vstd::prelude::*;

use crate::text::match_at;
use crate::text::match_at_exec;
use crate::text::chars_of;
use crate::tool::Tool;
use crate::version::SemanticVersion;
use crate::version::is_digit;
use crate::version::spec_parse;
use crate::version::parse_chars;

verus! {

/// `c` may stand in a captured version run: a digit or a dot.
pub open spec fn is_version_char(c: char) -> bool {
    is_digit(c) || c == '.'
}

/// First position at or after `i` where the prefix `p` occurs in `t` with a
/// version character right after it, if any.
pub open spec fn pattern_match_from(t: Seq<char>, p: Seq<char>, i: int) -> Option<int>
    decreases t.len() - i,
{
    if !(0 <= i && i + p.len() < t.len()) {
        None
    } else if match_at(t, p, i, false) && is_version_char(t[i + p.len()]) {
        Some(i)
    } else {
        pattern_match_from(t, p, i + 1)
    }
}

/// End of the maximal run of version characters starting at `i`.
pub open spec fn run_end(t: Seq<char>, i: int) -> int
    decreases t.len() - i,
{
    if 0 <= i < t.len() && is_version_char(t[i]) {
        run_end(t, i + 1)
    } else {
        i
    }
}

/// The version text captured after the first occurrence of the prefix, if
/// the prefix occurs followed by at least one version character.
pub open spec fn spec_capture(t: Seq<char>, p: Seq<char>) -> Option<Seq<char>> {
    match pattern_match_from(t, p, 0) {
        None => None,
        Some(i) => Some(t.subrange(i + p.len(), run_end(t, i + p.len()))),
    }
}

/// The installed version read from probe output `out` with prefix `prefix`:
/// the captured run, if any, parsed as a version.
pub open spec fn spec_probe_version(out: Seq<char>, prefix: Seq<char>) -> Option<SemanticVersion> {
    match spec_capture(out, prefix) {
        None => None,
        Some(cap) => spec_parse(cap),
    }
}

/// A pattern match lies inside the sequence, with room for a capture.
proof fn lemma_pattern_match_bounds(t: Seq<char>, p: Seq<char>, i: int)
    requires
        0 <= i,
    ensures
        pattern_match_from(t, p, i) matches Some(k) ==> i <= k && k + p.len() < t.len(),
    decreases t.len() - i,
{
    if 0 <= i && i + p.len() < t.len() && !(match_at(t, p, i, false) && is_version_char(
        t[i + p.len()],
    )) {
        lemma_pattern_match_bounds(t, p, i + 1);
    }
}

/// `c` may stand in a captured version run.
pub fn is_version_char_exec(c: char) -> (r: bool)
    ensures
        r == is_version_char(c),
{
    let u = c as u32;
    (48 <= u && u <= 57) || c == '.'
}

/// Position of the first prefix occurrence followed by a version character.
fn find_pattern(t: &Vec<char>, p: &Vec<char>) -> (r: Option<usize>)
    ensures
        match r {
            Some(i) => pattern_match_from(t@, p@, 0) == Some(i as int),
            None => pattern_match_from(t@, p@, 0) is None,
        },
{
    let n = t.len();
    let m = p.len();
    let mut i: usize = 0;
    loop
        invariant
            n == t@.len(),
            m == p@.len(),
            pattern_match_from(t@, p@, 0) == pattern_match_from(t@, p@, i as int),
        decreases n + 1 - i,
    {
        if i >= n || m >= n - i {
            return None;
        }
        if match_at_exec(t, p, i, false) {
            if is_version_char_exec(t[i + m]) {
                return Some(i);
            }
        }
        i = i + 1;
    }
}

/// Extract this tool's installed version from its version output, exactly as
/// `spec_probe_version` reads it; `None` when the output does not carry one.
pub fn extract_version(tool: &Tool, output: &str) -> (r: Option<SemanticVersion>)
    ensures
        r == spec_probe_version(output@, tool.version_prefix@),
{
    let t = chars_of(output);
    let p = chars_of(tool.version_prefix.as_str());
    let n = t.len();
    proof {
        lemma_pattern_match_bounds(t@, p@, 0);
    }
    let start = match find_pattern(&t, &p) {
        Some(i) => i + p.len(),
        None => {
            return None;
        },
    };
    let mut e: usize = start;
    while e < n && is_version_char_exec(t[e])
        invariant
            n == t@.len(),
            start <= e <= n,
            run_end(t@, start as int) == run_end(t@, e as int),
        decreases n - e,
    {
        e = e + 1;
    }
    proof {
        assert(run_end(t@, e as int) == e);
    }
    let mut cap: Vec<char> = Vec::new();
    let mut k: usize = start;
    while k < e
        invariant
            start <= k <= e <= t@.len(),
            cap@ == t@.subrange(start as int, k as int),
        decreases e - k,
    {
        cap.push(t[k]);
        k = k + 1;
        proof {
            assert(cap@ =~= t@.subrange(start as int, k as int));
        }
    }
    parse_chars(&cap)
}

/// The probe decision: absent output (the executable was missing, failed to
/// run, or exited unsuccessfully) and output without a version both give
/// `None`; this function never fails.
pub fn probe_installed(tool: &Tool, output: Option<&str>) -> (r: Option<SemanticVersion>)
    ensures
        r == match output {
            None => None::<SemanticVersion>,
            Some(o) => spec_probe_version(o@, tool.version_prefix@),
        },
{
    match output {
        None => None,
        Some(o) => extract_version(tool, o),
    }
}

} // verus!
