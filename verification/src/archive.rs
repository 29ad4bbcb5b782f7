//! Archive-entry planning with path sanitization: each entry name is split on
//! `/`, normalized, and either rejected or turned into a relative component
//! path that provably stays inside the extraction directory.
use vstd::prelude::*;

use crate::text::find_char_from;
use crate::text::chars_of;

verus! {

/// `c` may stand inside a path component: no separators, no drive mark,
/// no NUL.
pub open spec fn ok_char(c: char) -> bool {
    c != '/' && c != '\\' && c != ':' && c != '\u{0}'
}

/// A component that names one directory level: nonempty, not a dot form,
/// and free of separator characters.
pub open spec fn plain_component(c: Seq<char>) -> bool {
    &&& c.len() > 0
    &&& c != seq!['.']
    &&& c != seq!['.', '.']
    &&& forall|k: int| 0 <= k < c.len() ==> ok_char(#[trigger] c[k])
}

/// The entry name split on `/`, separators removed.
pub open spec fn split_slash(s: Seq<char>) -> Seq<Seq<char>>
    decreases s.len(),
{
    match find_char_from(s, '/', 0) {
        None => seq![s],
        Some(i) => if 0 <= i < s.len() {
            seq![s.subrange(0, i)] + split_slash(s.subrange(i + 1, s.len() as int))
        } else {
            seq![s]
        },
    }
}

/// Normalize the components from `i` on, on top of the already-kept `acc`:
/// empty components and `.` are dropped, `..` and components with separator
/// characters make the whole entry unacceptable.
pub open spec fn normalize_from(cs: Seq<Seq<char>>, i: int, acc: Seq<Seq<char>>) -> Option<
    Seq<Seq<char>>,
>
    decreases cs.len() - i,
{
    if !(0 <= i < cs.len()) {
        Some(acc)
    } else if cs[i].len() == 0 || cs[i] == seq!['.'] {
        normalize_from(cs, i + 1, acc)
    } else if cs[i] == seq!['.', '.'] {
        None
    } else if exists|k: int| 0 <= k < cs[i].len() && !ok_char(#[trigger] cs[i][k]) {
        None
    } else {
        normalize_from(cs, i + 1, acc.push(cs[i]))
    }
}

/// The kept components of an entry name, or `None` when the entry must be
/// rejected.
pub open spec fn normalize_components(cs: Seq<Seq<char>>) -> Option<Seq<Seq<char>>> {
    normalize_from(cs, 0, Seq::empty())
}

/// What the sanitizer decides for one entry name (specification view).
pub enum PlanView {
    Reject,
    Directory(Seq<Seq<char>>),
    File(Seq<Seq<char>>),
}

/// The plan for an entry name: empty and absolute names are rejected, a
/// trailing `/` marks a directory, and the kept components give the path
/// under the extraction directory.
pub open spec fn spec_plan_entry(name: Seq<char>) -> PlanView {
    if name.len() == 0 {
        PlanView::Reject
    } else if name[0] == '/' {
        PlanView::Reject
    } else {
        match normalize_components(split_slash(name)) {
            None => PlanView::Reject,
            Some(cs) => if name[name.len() - 1] == '/' {
                PlanView::Directory(cs)
            } else if cs.len() == 0 {
                PlanView::Reject
            } else {
                PlanView::File(cs)
            },
        }
    }
}

/// What the extractor should do with one archive entry: skip it, create a
/// directory, or write a file, at the given component path under the
/// extraction directory.
pub enum EntryPlan {
    Reject,
    Directory(Vec<String>),
    File(Vec<String>),
}

impl View for EntryPlan {
    type V = PlanView;

    open spec fn view(&self) -> PlanView {
        match self {
            EntryPlan::Reject => PlanView::Reject,
            EntryPlan::Directory(v) => PlanView::Directory(v.deep_view()),
            EntryPlan::File(v) => PlanView::File(v.deep_view()),
        }
    }
}

/// Dropping the first component shifts normalization by one.
proof fn lemma_normalize_shift(c: Seq<char>, cs: Seq<Seq<char>>, j: int, acc: Seq<Seq<char>>)
    requires
        0 <= j,
    ensures
        normalize_from(seq![c] + cs, j + 1, acc) == normalize_from(cs, j, acc),
    decreases cs.len() - j,
{
    let full = seq![c] + cs;
    if 0 <= j < cs.len() {
        assert(full[j + 1] == cs[j]);
        if cs[j].len() == 0 || cs[j] == seq!['.'] {
            lemma_normalize_shift(c, cs, j + 1, acc);
        } else if cs[j] == seq!['.', '.'] {
        } else if exists|k: int| 0 <= k < cs[j].len() && !ok_char(#[trigger] cs[j][k]) {
        } else {
            lemma_normalize_shift(c, cs, j + 1, acc.push(cs[j]));
        }
    }
}

/// One normalization step, phrased over the head component.
proof fn lemma_normalize_cons(c: Seq<char>, cs: Seq<Seq<char>>, acc: Seq<Seq<char>>)
    ensures
        normalize_from(seq![c] + cs, 0, acc) == (if c.len() == 0 || c == seq!['.'] {
            normalize_from(cs, 0, acc)
        } else if c == seq!['.', '.'] {
            None
        } else if exists|k: int| 0 <= k < c.len() && !ok_char(#[trigger] c[k]) {
            None
        } else {
            normalize_from(cs, 0, acc.push(c))
        }),
{
    let full = seq![c] + cs;
    assert(full[0] == c);
    if c.len() == 0 || c == seq!['.'] {
        lemma_normalize_shift(c, cs, 0, acc);
    } else if c == seq!['.', '.'] {
    } else if exists|k: int| 0 <= k < c.len() && !ok_char(#[trigger] c[k]) {
    } else {
        lemma_normalize_shift(c, cs, 0, acc.push(c));
    }
}

/// Everything that normalization keeps is a plain component.
proof fn lemma_normalize_plain(cs: Seq<Seq<char>>, i: int, acc: Seq<Seq<char>>)
    requires
        forall|m: int| 0 <= m < acc.len() ==> plain_component(#[trigger] acc[m]),
    ensures
        normalize_from(cs, i, acc) matches Some(r) ==> forall|m: int|
            0 <= m < r.len() ==> plain_component(#[trigger] r[m]),
    decreases cs.len() - i,
{
    if 0 <= i < cs.len() {
        if cs[i].len() == 0 || cs[i] == seq!['.'] {
            lemma_normalize_plain(cs, i + 1, acc);
        } else if cs[i] == seq!['.', '.'] {
        } else if exists|k: int| 0 <= k < cs[i].len() && !ok_char(#[trigger] cs[i][k]) {
        } else {
            assert(plain_component(cs[i]));
            lemma_normalize_plain(cs, i + 1, acc.push(cs[i]));
        }
    }
}

/// Containment: a planned path never escapes the extraction directory. Every
/// kept component is a plain name — nonempty, not `.` or `..`, without
/// separators — so joining the components under the target directory always
/// lands inside it; a file plan names at least one component.
pub proof fn lemma_plan_entry_contained(name: Seq<char>)
    ensures
        match spec_plan_entry(name) {
            PlanView::Reject => true,
            PlanView::Directory(cs) => forall|m: int|
                0 <= m < cs.len() ==> plain_component(#[trigger] cs[m]),
            PlanView::File(cs) => cs.len() > 0 && forall|m: int|
                0 <= m < cs.len() ==> plain_component(#[trigger] cs[m]),
        },
{
    if name.len() > 0 && name[0] != '/' {
        lemma_normalize_plain(split_slash(name), 0, Seq::empty());
    }
}

/// Is the component `[from, to)` of `t` exactly the text `pat`?
fn range_is(t: &Vec<char>, from: usize, to: usize, pat: &Vec<char>) -> (r: bool)
    requires
        from <= to <= t@.len(),
    ensures
        r == (t@.subrange(from as int, to as int) == pat@),
{
    let ghost s = t@.subrange(from as int, to as int);
    if to - from != pat.len() {
        return false;
    }
    let mut k: usize = 0;
    while k < pat.len()
        invariant
            from <= to <= t@.len(),
            to - from == pat@.len(),
            k <= pat@.len(),
            s == t@.subrange(from as int, to as int),
            forall|m: int| 0 <= m < k ==> s[m] == pat@[m],
        decreases pat@.len() - k,
    {
        if t[from + k] != pat[k] {
            proof {
                assert(s[k as int] == t@[from + k]);
            }
            return false;
        }
        proof {
            assert(s[k as int] == t@[from + k]);
        }
        k = k + 1;
    }
    proof {
        assert(s =~= pat@);
    }
    true
}

/// Does the component `[from, to)` of `t` hold only acceptable characters?
fn range_chars_ok(t: &Vec<char>, from: usize, to: usize) -> (r: bool)
    requires
        from <= to <= t@.len(),
    ensures
        r == (forall|k: int|
            from <= k < to ==> ok_char(#[trigger] t@[k])),
{
    let mut k: usize = from;
    while k < to
        invariant
            from <= k <= to <= t@.len(),
            forall|m: int| from <= m < k ==> ok_char(#[trigger] t@[m]),
        decreases to - k,
    {
        let c = t[k];
        if c == '/' || c == '\\' || c == ':' || c == '\u{0}' {
            return false;
        }
        k = k + 1;
    }
    true
}

/// Plan one archive entry, exactly as `spec_plan_entry` decides it: reject
/// it, or give the sanitized component path of the directory or file it
/// denotes.
pub fn plan_entry(name: &str) -> (r: EntryPlan)
    ensures
        r@ == spec_plan_entry(name@),
{
    let t = chars_of(name);
    let n = t.len();
    if n == 0 {
        return EntryPlan::Reject;
    }
    if t[0] == '/' {
        return EntryPlan::Reject;
    }
    let is_dir = t[n - 1] == '/';
    let dot = chars_of(".");
    let dotdot = chars_of("..");
    proof {
        reveal_strlit(".");
        reveal_strlit("..");
        assert(dot@ =~= seq!['.']);
        assert(dotdot@ =~= seq!['.', '.']);
    }
    let mut comps: Vec<String> = Vec::new();
    let mut start: usize = 0;
    proof {
        assert(t@.subrange(0, n as int) =~= t@);
        assert(comps.deep_view() =~= Seq::<Seq<char>>::empty());
    }
    loop
        invariant_except_break
            normalize_components(split_slash(t@)) == normalize_from(
                split_slash(t@.subrange(start as int, n as int)),
                0,
                comps.deep_view(),
            ),
        invariant
            n == t@.len(),
            name@ == t@,
            start <= n,
            dot@ == seq!['.'],
            dotdot@ == seq!['.', '.'],
        ensures
            normalize_components(split_slash(t@)) == Some(comps.deep_view()),
        decreases n - start,
    {
        let ghost suffix = t@.subrange(start as int, n as int);
        let (to, last) = match find_char_exec_range(&t, start, n) {
            Some(i) => (i, false),
            None => (n, true),
        };
        let ghost c = t@.subrange(start as int, to as int);
        let ghost rest_cs: Seq<Seq<char>>;
        proof {
            if last {
                assert(suffix =~= c);
                rest_cs = Seq::empty();
                assert(split_slash(suffix) =~= seq![c] + rest_cs);
            } else {
                let rest = t@.subrange(to + 1, n as int);
                assert(suffix.subrange(0, to - start) =~= c);
                assert(suffix.subrange(to - start + 1, suffix.len() as int) =~= rest);
                rest_cs = split_slash(rest);
                assert(split_slash(suffix) == seq![c] + rest_cs);
            }
            lemma_normalize_cons(c, rest_cs, comps.deep_view());
        }
        let keep: bool;
        if to == start || range_is(&t, start, to, &dot) {
            keep = false;
        } else if range_is(&t, start, to, &dotdot) {
            return EntryPlan::Reject;
        } else if !range_chars_ok(&t, start, to) {
            proof {
                let k0 = choose|k: int| start <= k < to && !ok_char(t@[k]);
                assert(c[k0 - start] == t@[k0]);
                assert(exists|k: int| 0 <= k < c.len() && !ok_char(#[trigger] c[k]));
            }
            return EntryPlan::Reject;
        } else {
            proof {
                assert forall|k: int| 0 <= k < c.len() implies ok_char(#[trigger] c[k]) by {
                    assert(c[k] == t@[start + k]);
                }
            }
            keep = true;
        }
        if keep {
            let ghost before = comps.deep_view();
            let piece = name.substring_char(start, to).to_owned();
            comps.push(piece);
            proof {
                assert(comps.deep_view() =~= before.push(c));
            }
        }
        if last {
            proof {
                assert(normalize_from(rest_cs, 0, comps.deep_view()) == Some(
                    comps.deep_view(),
                ));
            }
            break;
        }
        start = to + 1;
    }
    if is_dir {
        EntryPlan::Directory(comps)
    } else if comps.len() == 0 {
        EntryPlan::Reject
    } else {
        EntryPlan::File(comps)
    }
}

/// Position of the first `/` in `t` within `[from, to)`, if any; `to` is the
/// sequence length.
fn find_char_exec_range(t: &Vec<char>, from: usize, to: usize) -> (r: Option<usize>)
    requires
        from <= to == t@.len(),
    ensures
        match r {
            Some(i) => from <= i < to && find_char_from(
                t@.subrange(from as int, to as int),
                '/',
                0,
            ) == Some(i - from),
            None => find_char_from(t@.subrange(from as int, to as int), '/', 0) is None,
        },
{
    let ghost suffix = t@.subrange(from as int, to as int);
    let mut i: usize = from;
    loop
        invariant
            from <= to,
            from <= i,
            to == t@.len(),
            suffix == t@.subrange(from as int, to as int),
            find_char_from(suffix, '/', 0) == find_char_from(suffix, '/', i - from),
        decreases to + 1 - i,
    {
        if i >= to {
            return None;
        }
        proof {
            assert(suffix[i - from] == t@[i as int]);
        }
        if t[i] == '/' {
            return Some(i);
        }
        i = i + 1;
    }
}

} // verus!
