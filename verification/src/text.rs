//! Character-sequence primitives: ASCII case folding, substring search and
//! suffix tests, shared by the version grammar, the asset predicate and the
//! probe-output scanner.
use vstd::prelude::*;

verus! {

/// Unicode scalar value of `c`, with ASCII uppercase letters folded to
/// lowercase; all other characters are left as they are.
pub open spec fn fold_char(c: char) -> u32 {
    if 'A' <= c && c <= 'Z' {
        (c as u32 + 32) as u32
    } else {
        c as u32
    }
}

/// Scalar value used when comparing characters: folded when `ci` (the
/// comparison is case-insensitive), plain otherwise.
pub open spec fn norm_char(c: char, ci: bool) -> u32 {
    if ci {
        fold_char(c)
    } else {
        c as u32
    }
}

/// The pattern `p` occurs in `t` at position `i`, comparing characters
/// case-insensitively when `ci`.
pub open spec fn match_at(t: Seq<char>, p: Seq<char>, i: int, ci: bool) -> bool {
    &&& 0 <= i
    &&& i + p.len() <= t.len()
    &&& forall|k: int| 0 <= k < p.len() ==> norm_char(#[trigger] t[i + k], ci) == norm_char(p[k], ci)
}

/// Position of the first occurrence of `p` in `t` at or after `i`, if any.
pub open spec fn first_match_from(t: Seq<char>, p: Seq<char>, i: int, ci: bool) -> Option<int>
    decreases t.len() - i,
{
    if !(0 <= i && i + p.len() <= t.len()) {
        None
    } else if match_at(t, p, i, ci) {
        Some(i)
    } else {
        first_match_from(t, p, i + 1, ci)
    }
}

/// `p` occurs somewhere in `t`.
pub open spec fn seq_contains(t: Seq<char>, p: Seq<char>, ci: bool) -> bool {
    first_match_from(t, p, 0, ci) is Some
}

/// `t` ends with `p`.
pub open spec fn seq_ends_with(t: Seq<char>, p: Seq<char>, ci: bool) -> bool {
    p.len() <= t.len() && match_at(t, p, t.len() - p.len(), ci)
}

/// Position of the first occurrence of the character `c` in `t` at or
/// after `i`, if any.
pub open spec fn find_char_from(t: Seq<char>, c: char, i: int) -> Option<int>
    decreases t.len() - i,
{
    if !(0 <= i < t.len()) {
        None
    } else if t[i] == c {
        Some(i)
    } else {
        find_char_from(t, c, i + 1)
    }
}

/// A found character lies inside the sequence, at or past the start index.
pub proof fn lemma_find_char_in_range(t: Seq<char>, c: char, i: int)
    requires
        0 <= i,
    ensures
        find_char_from(t, c, i) matches Some(k) ==> i <= k < t.len() && t[k] == c,
    decreases t.len() - i,
{
    if 0 <= i < t.len() && t[i] != c {
        lemma_find_char_in_range(t, c, i + 1);
    }
}

/// Executable counterpart of `fold_char`.
pub fn fold_char_exec(c: char) -> (r: u32)
    ensures
        r == fold_char(c),
{
    let u = c as u32;
    if 65 <= u && u <= 90 {
        u + 32
    } else {
        u
    }
}

/// Compare two characters, case-insensitively when `ci`.
pub fn chars_agree(a: char, b: char, ci: bool) -> (r: bool)
    ensures
        r == (norm_char(a, ci) == norm_char(b, ci)),
{
    if ci {
        fold_char_exec(a) == fold_char_exec(b)
    } else {
        a as u32 == b as u32
    }
}

/// The characters of `s`, in order, as a vector.
pub fn chars_of(s: &str) -> (v: Vec<char>)
    ensures
        v@ == s@,
{
    let n = s.unicode_len();
    let mut v: Vec<char> = Vec::new();
    let mut i: usize = 0;
    while i < n
        invariant
            n == s@.len(),
            i <= n,
            v@ == s@.subrange(0, i as int),
        decreases n - i,
    {
        let c = s.get_char(i);
        v.push(c);
        i = i + 1;
        proof {
            assert(v@ =~= s@.subrange(0, i as int));
        }
    }
    proof {
        assert(v@ =~= s@);
    }
    v
}

/// Does `p` occur in `t` at position `i`?
pub fn match_at_exec(t: &Vec<char>, p: &Vec<char>, i: usize, ci: bool) -> (r: bool)
    requires
        i + p@.len() <= t@.len(),
    ensures
        r == match_at(t@, p@, i as int, ci),
{
    let tn = t.len();
    let mut k: usize = 0;
    while k < p.len()
        invariant
            tn == t@.len(),
            i + p@.len() <= tn,
            k <= p@.len(),
            forall|m: int| 0 <= m < k ==> norm_char(#[trigger] t@[i + m], ci) == norm_char(
                p@[m],
                ci,
            ),
        decreases p@.len() - k,
    {
        if !chars_agree(t[i + k], p[k], ci) {
            return false;
        }
        k = k + 1;
    }
    true
}

/// Position of the first occurrence of `p` in `t` at or after `from`, if any.
pub fn find_match_from(t: &Vec<char>, p: &Vec<char>, from: usize, ci: bool) -> (r: Option<usize>)
    ensures
        match r {
            Some(i) => first_match_from(t@, p@, from as int, ci) == Some(i as int),
            None => first_match_from(t@, p@, from as int, ci) is None,
        },
{
    let mut i: usize = from;
    loop
        invariant
            from <= i,
            first_match_from(t@, p@, from as int, ci) == first_match_from(t@, p@, i as int, ci),
        decreases t@.len() + 1 - i,
    {
        if i > t.len() || p.len() > t.len() - i {
            return None;
        }
        if match_at_exec(t, p, i, ci) {
            return Some(i);
        }
        i = i + 1;
    }
}

/// `p` occurs somewhere in `t`.
pub fn contains_exec(t: &Vec<char>, p: &Vec<char>, ci: bool) -> (r: bool)
    ensures
        r == seq_contains(t@, p@, ci),
{
    find_match_from(t, p, 0, ci).is_some()
}

/// `t` ends with `p`.
pub fn ends_with_exec(t: &Vec<char>, p: &Vec<char>, ci: bool) -> (r: bool)
    ensures
        r == seq_ends_with(t@, p@, ci),
{
    if p.len() <= t.len() {
        match_at_exec(t, p, t.len() - p.len(), ci)
    } else {
        false
    }
}

/// Position of the first occurrence of the character `c` in `t` at or after
/// `from`, if any.
pub fn find_char_exec(t: &Vec<char>, c: char, from: usize) -> (r: Option<usize>)
    ensures
        match r {
            Some(i) => find_char_from(t@, c, from as int) == Some(i as int),
            None => find_char_from(t@, c, from as int) is None,
        },
{
    let mut i: usize = from;
    loop
        invariant
            from <= i,
            find_char_from(t@, c, from as int) == find_char_from(t@, c, i as int),
        decreases t@.len() + 1 - i,
    {
        if i >= t.len() {
            return None;
        }
        if t[i] == c {
            return Some(i);
        }
        i = i + 1;
    }
}

} // verus!
