//! Semantic versions: the numeric `major.minor.patch` grammar, exact parsing,
//! and the total order used to decide whether an update is needed.
use vstd::prelude::*;

use crate::text::find_char_from;
use crate::text::find_char_exec;
use crate::text::lemma_find_char_in_range;
use crate::text::chars_of;

verus! {

/// A parsed semantic version: an ordered numeric triple.
#[derive(PartialEq, Eq, Structural, Clone, Copy, Debug)]
pub struct SemanticVersion {
    pub major: u64,
    pub minor: u64,
    pub patch: u64,
}

/// The version text did not conform to the numeric `major.minor.patch`
/// grouping (or a component overflows the machine range).
#[derive(PartialEq, Eq, Structural, Clone, Copy, Debug)]
pub struct ParseError;

/// Outcome of comparing two versions.
#[derive(PartialEq, Eq, Structural, Clone, Copy, Debug)]
pub enum VersionOrder {
    Less,
    Equal,
    Greater,
}

/// `c` is a decimal digit.
pub open spec fn is_digit(c: char) -> bool {
    48 <= c as u32 && c as u32 <= 57
}

/// Numeric value of the digit `c`.
pub open spec fn digit_val(c: char) -> int {
    c as u32 - 48
}

/// Value of `s` read as a decimal numeral (most significant digit first).
pub open spec fn numeral_value(s: Seq<char>) -> int
    decreases s.len(),
{
    if s.len() == 0 {
        0
    } else {
        numeral_value(s.drop_last()) * 10 + digit_val(s.last())
    }
}

/// `s` is a well-formed decimal numeral: nonempty, all digits, and without a
/// leading zero unless it is exactly `0`.
pub open spec fn is_numeral(s: Seq<char>) -> bool {
    &&& s.len() > 0
    &&& forall|i: int| 0 <= i < s.len() ==> is_digit(#[trigger] s[i])
    &&& s.len() > 1 ==> s[0] != '0'
}

/// `s` is a numeral whose value fits the component type.
pub open spec fn fitting_numeral(s: Seq<char>) -> bool {
    is_numeral(s) && numeral_value(s) <= u64::MAX
}

/// The version denoted by `s`, if `s` is a well-formed `major.minor.patch`
/// triple of fitting numerals; `None` otherwise.
pub open spec fn spec_parse(s: Seq<char>) -> Option<SemanticVersion> {
    match find_char_from(s, '.', 0) {
        None => None,
        Some(i) => match find_char_from(s, '.', i + 1) {
            None => None,
            Some(j) => {
                let a = s.subrange(0, i);
                let b = s.subrange(i + 1, j);
                let c = s.subrange(j + 1, s.len() as int);
                if fitting_numeral(a) && fitting_numeral(b) && fitting_numeral(c) {
                    Some(
                        SemanticVersion {
                            major: numeral_value(a) as u64,
                            minor: numeral_value(b) as u64,
                            patch: numeral_value(c) as u64,
                        },
                    )
                } else {
                    None
                }
            },
        },
    }
}

/// Lexicographic order on the numeric triple.
pub open spec fn spec_compare(a: SemanticVersion, b: SemanticVersion) -> VersionOrder {
    if a.major < b.major {
        VersionOrder::Less
    } else if a.major > b.major {
        VersionOrder::Greater
    } else if a.minor < b.minor {
        VersionOrder::Less
    } else if a.minor > b.minor {
        VersionOrder::Greater
    } else if a.patch < b.patch {
        VersionOrder::Less
    } else if a.patch > b.patch {
        VersionOrder::Greater
    } else {
        VersionOrder::Equal
    }
}

/// `a` is at least `b`.
pub open spec fn spec_ge(a: SemanticVersion, b: SemanticVersion) -> bool {
    spec_compare(a, b) is Equal || spec_compare(a, b) is Greater
}

/// A numeral's value is never negative.
proof fn lemma_numeral_nonneg(s: Seq<char>)
    requires
        forall|i: int| 0 <= i < s.len() ==> is_digit(#[trigger] s[i]),
    ensures
        numeral_value(s) >= 0,
    decreases s.len(),
{
    if s.len() > 0 {
        lemma_numeral_nonneg(s.drop_last());
    }
}

/// Extending a numeral with further digits never decreases its value.
proof fn lemma_numeral_mono(t: Seq<char>, a: int, b1: int, b2: int)
    requires
        0 <= a <= b1 <= b2 <= t.len(),
        forall|i: int| a <= i < b2 ==> is_digit(#[trigger] t[i]),
    ensures
        numeral_value(t.subrange(a, b1)) <= numeral_value(t.subrange(a, b2)),
    decreases b2 - b1,
{
    if b1 < b2 {
        lemma_numeral_mono(t, a, b1, b2 - 1);
        assert(t.subrange(a, b2).drop_last() =~= t.subrange(a, b2 - 1));
        lemma_numeral_nonneg(t.subrange(a, b2 - 1));
    }
}

/// Value of the digit range `[from, to)` of `t`, if it is a fitting numeral;
/// `None` exactly when it is not.
fn parse_numeral(t: &Vec<char>, from: usize, to: usize) -> (r: Option<u64>)
    requires
        from <= to <= t@.len(),
    ensures
        match r {
            Some(v) => fitting_numeral(t@.subrange(from as int, to as int)) && v == numeral_value(
                t@.subrange(from as int, to as int),
            ),
            None => !fitting_numeral(t@.subrange(from as int, to as int)),
        },
{
    let ghost s = t@.subrange(from as int, to as int);
    if from == to {
        return None;
    }
    if to - from > 1 && t[from] == '0' {
        return None;
    }
    let mut acc: u64 = 0;
    let mut k: usize = from;
    while k < to
        invariant
            from <= k <= to <= t@.len(),
            s == t@.subrange(from as int, to as int),
            forall|m: int| from <= m < k ==> is_digit(#[trigger] t@[m]),
            acc == numeral_value(t@.subrange(from as int, k as int)),
        decreases to - k,
    {
        let c = t[k];
        let u = c as u32;
        if u < 48 || u > 57 {
            // A non-digit makes the whole range a non-numeral.
            proof {
                assert(s[k - from] == t@[k as int]);
            }
            return None;
        }
        let d = (u - 48) as u64;
        proof {
            assert(t@.subrange(from as int, k + 1 as int).drop_last() =~= t@.subrange(
                from as int,
                k as int,
            ));
        }
        let step = match acc.checked_mul(10) {
            Some(x) => x.checked_add(d),
            None => None,
        };
        match step {
            Some(next) => {
                acc = next;
            },
            None => {
                // The value up to and including this digit already exceeds
                // the component range, and further digits cannot shrink it.
                proof {
                    if is_numeral(s) {
                        assert forall|m: int| from <= m < to implies is_digit(#[trigger] t@[m]) by {
                            assert(s[m - from] == t@[m]);
                        }
                        lemma_numeral_mono(t@, from as int, k + 1, to as int);
                        assert(numeral_value(s) > u64::MAX);
                    }
                }
                return None;
            },
        }
        k = k + 1;
    }
    proof {
        assert(s =~= t@.subrange(from as int, to as int));
        assert(is_numeral(s));
    }
    Some(acc)
}

/// The version denoted by the character vector `t`, exactly as `spec_parse`
/// reads it.
pub fn parse_chars(t: &Vec<char>) -> (r: Option<SemanticVersion>)
    ensures
        r == spec_parse(t@),
{
    let n = t.len();
    let i = match find_char_exec(t, '.', 0) {
        Some(i) => i,
        None => {
            return None;
        },
    };
    proof {
        lemma_find_char_in_range(t@, '.', 0);
    }
    let j = match find_char_exec(t, '.', i + 1) {
        Some(j) => j,
        None => {
            return None;
        },
    };
    proof {
        lemma_find_char_in_range(t@, '.', i + 1);
    }
    let major = match parse_numeral(t, 0, i) {
        Some(v) => v,
        None => {
            return None;
        },
    };
    let minor = match parse_numeral(t, i + 1, j) {
        Some(v) => v,
        None => {
            return None;
        },
    };
    let patch = match parse_numeral(t, j + 1, t.len()) {
        Some(v) => v,
        None => {
            return None;
        },
    };
    Some(SemanticVersion { major, minor, patch })
}

/// Parse a version string; rejects anything but a numeric
/// `major.minor.patch` triple, exactly when `spec_parse` does.
pub fn parse(text: &str) -> (r: Result<SemanticVersion, ParseError>)
    ensures
        match r {
            Ok(v) => spec_parse(text@) == Some(v),
            Err(_) => spec_parse(text@) is None,
        },
{
    let t = chars_of(text);
    match parse_chars(&t) {
        Some(v) => Ok(v),
        None => Err(ParseError),
    }
}

/// Compare two versions under the lexicographic order on the triple.
pub fn compare(a: SemanticVersion, b: SemanticVersion) -> (r: VersionOrder)
    ensures
        r == spec_compare(a, b),
{
    if a.major < b.major {
        VersionOrder::Less
    } else if a.major > b.major {
        VersionOrder::Greater
    } else if a.minor < b.minor {
        VersionOrder::Less
    } else if a.minor > b.minor {
        VersionOrder::Greater
    } else if a.patch < b.patch {
        VersionOrder::Less
    } else if a.patch > b.patch {
        VersionOrder::Greater
    } else {
        VersionOrder::Equal
    }
}

/// `a` is at least `b`: installed `a` makes latest `b` "up to date".
pub fn version_ge(a: SemanticVersion, b: SemanticVersion) -> (r: bool)
    ensures
        r == spec_ge(a, b),
{
    match compare(a, b) {
        VersionOrder::Less => false,
        VersionOrder::Equal => true,
        VersionOrder::Greater => true,
    }
}

/// The order is antisymmetric and reflexive: `compare(a, b)` is `Greater`
/// exactly when `compare(b, a)` is `Less`, and a version equals itself.
pub proof fn lemma_compare_antisymmetric(a: SemanticVersion, b: SemanticVersion)
    ensures
        (spec_compare(a, b) is Greater) <==> (spec_compare(b, a) is Less),
        spec_compare(a, a) is Equal,
{
}

/// Two versions compare `Equal` exactly when all their components match.
pub proof fn lemma_compare_equal_iff(a: SemanticVersion, b: SemanticVersion)
    ensures
        (spec_compare(a, b) is Equal) <==> a == b,
{
}

/// The order is transitive, so it is a total order on versions.
pub proof fn lemma_compare_transitive(a: SemanticVersion, b: SemanticVersion, c: SemanticVersion)
    requires
        spec_compare(a, b) is Less,
        spec_compare(b, c) is Less,
    ensures
        spec_compare(a, c) is Less,
{
}

} // verus!
