//! Ranking candidates by how well they fuzzily match the input, for completion.
use vstd::prelude::*;
use vstd::relations::injective_on;
use vstd::set_lib::set_int_range;

use crate::table::{rows_view, table_line, to_lines};
use crate::sh::opt_string_view;
use crate::text::{
    chars_of, join_offset, join_strings, lemma_join_offset_grows, lemma_join_parts, seq_join, str_eq,
    strings_view,
};

verus! {

/// The score of `choice` against `pattern` under skim's smart-case fuzzy matching: `None`
/// when it does not match at all.
pub uninterp spec fn skim_score(choice: Seq<char>, pattern: Seq<char>) -> Option<i64>;

/// `SkimMatcherV2::default().smart_case().fuzzy_match(choice, pattern)` of fuzzy-matcher:
/// claimed to return the match score of `choice` against `pattern`, named [`skim_score`], a
/// function of the two texts alone (the matcher's caches are scratch space only).
#[verifier::external_body]
fn fuzzy_score(choice: &str, pattern: &str) -> (r: Option<i64>)
    ensures
        r == skim_score(choice@, pattern@),
{
    fuzzy_matcher::FuzzyMatcher::fuzzy_match(
        &fuzzy_matcher::skim::SkimMatcherV2::default().smart_case(),
        choice,
        pattern,
    )
}

/// Scores ordered as `Option<i64>` is: no score below every score.
pub open spec fn score_lt(a: Option<i64>, b: Option<i64>) -> bool {
    match (a, b) {
        (None, Some(_)) => true,
        (Some(x), Some(y)) => x < y,
        _ => false,
    }
}

/// Whether score `a` is below score `b`.
fn score_below(a: Option<i64>, b: Option<i64>) -> (r: bool)
    ensures
        r == score_lt(a, b),
{
    match (a, b) {
        (None, Some(_)) => true,
        (Some(x), Some(y)) => x < y,
        _ => false,
    }
}

/// `out` is `input` sorted by score, highest first, items of equal score kept in their
/// order; `p` maps each place of `out` to the place in `input` it came from.
pub open spec fn sorts_by<T>(
    input: Seq<(T, Option<i64>)>,
    out: Seq<(T, Option<i64>)>,
    p: Seq<int>,
) -> bool {
    &&& out.len() == input.len()
    &&& p.len() == input.len()
    &&& forall|k: int| 0 <= k < out.len() ==> 0 <= #[trigger] p[k] < input.len() && out[k] == input[p[k]]
    &&& forall|a: int, b: int| 0 <= a < b < out.len() ==> #[trigger] p[a] != #[trigger] p[b]
    &&& forall|i: int| 0 <= i < input.len() ==> #[trigger] placed(p, i)
    &&& forall|a: int, b: int|
        0 <= a < b < out.len() ==> !score_lt(#[trigger] out[a].1, #[trigger] out[b].1)
    &&& forall|a: int, b: int|
        0 <= a < b < out.len() && (#[trigger] out[a]).1 == (#[trigger] out[b]).1 ==> p[a] < p[b]
}

/// Some place of `p` holds `i`.
pub open spec fn placed(p: Seq<int>, i: int) -> bool {
    exists|k: int| 0 <= k < p.len() && #[trigger] p[k] == i
}

/// `out` is the stable sort of `input` by score, highest first.
pub open spec fn stable_sorted_desc<T>(input: Seq<(T, Option<i64>)>, out: Seq<(T, Option<i64>)>) -> bool {
    exists|p: Seq<int>| sorts_by(input, out, p)
}

/// Item `j` is ranked ahead of item `i`: it scores higher, or as high and came first.
pub open spec fn ranks_before<T>(input: Seq<(T, Option<i64>)>, j: int, i: int) -> bool {
    score_lt(input[i].1, input[j].1) || (input[j].1 == input[i].1 && j < i)
}

/// The items ranked ahead of item `i`.
pub open spec fn ahead_of<T>(input: Seq<(T, Option<i64>)>, i: int) -> Set<int> {
    Set::new(|j: int| 0 <= j < input.len() && ranks_before(input, j, i))
}

/// In a stable sort by score, the item at place `k` has exactly `k` items ranked ahead of it.
proof fn lemma_place_is_rank<T>(input: Seq<(T, Option<i64>)>, out: Seq<(T, Option<i64>)>, p: Seq<int>, k: int)
    requires
        sorts_by(input, out, p),
        0 <= k < out.len(),
    ensures
        ahead_of(input, p[k]).finite(),
        ahead_of(input, p[k]).len() == k,
{
    let i = p[k];
    let r = set_int_range(0, k);
    let f = |x: int| p[x];
    let a = ahead_of(input, i);
    assert forall|j: int| r.map(f).contains(j) <==> a.contains(j) by {
        if r.map(f).contains(j) {
            let x = choose|x: int| r.contains(x) && j == f(x);
            assert(out[x] == input[p[x]] && out[k] == input[p[k]]);
            assert(!score_lt(out[x].1, out[k].1));
            if !score_lt(out[k].1, out[x].1) {
                assert(out[x].1 == out[k].1);
                assert(p[x] < p[k]);
            }
        }
        if a.contains(j) {
            assert(placed(p, j));
            let y = choose|y: int| 0 <= y < p.len() && #[trigger] p[y] == j;
            assert(out[y] == input[p[y]] && out[k] == input[p[k]]);
            if y > k {
                assert(!score_lt(out[k].1, out[y].1));
                assert(out[k].1 == out[y].1);
                assert(p[k] < p[y]);
            }
            assert(y != k);
            assert(r.contains(y) && j == f(y));
        }
    }
    assert(r.map(f) =~= a);
    assert(injective_on(f, r)) by {
        assert forall|x1: int, x2: int| r.contains(x1) && r.contains(x2) && #[trigger] f(x1)
            == #[trigger] f(x2) implies x1 == x2 by {
            if x1 < x2 {
                assert(p[x1] != p[x2]);
            } else if x2 < x1 {
                assert(p[x2] != p[x1]);
            }
        }
    }
    vstd::set_lib::lemma_int_range(0, k);
    vstd::set_lib::lemma_map_size(r, a, f);
}

/// A stable sort by score is unique: two rankings of the same items are the same.
pub proof fn lemma_ranking_unique<T>(
    input: Seq<(T, Option<i64>)>,
    o1: Seq<(T, Option<i64>)>,
    o2: Seq<(T, Option<i64>)>,
)
    requires
        stable_sorted_desc(input, o1),
        stable_sorted_desc(input, o2),
    ensures
        o1 == o2,
{
    let p1 = choose|p: Seq<int>| sorts_by(input, o1, p);
    let p2 = choose|p: Seq<int>| sorts_by(input, o2, p);
    assert forall|k: int| 0 <= k < o1.len() implies o1[k] == o2[k] by {
        let i = p1[k];
        lemma_place_is_rank(input, o1, p1, k);
        assert(placed(p2, i));
        let k2 = choose|k2: int| 0 <= k2 < p2.len() && #[trigger] p2[k2] == i;
        lemma_place_is_rank(input, o2, p2, k2);
        assert(k2 == k);
    }
    assert(o1 =~= o2);
}

/// Sorts by score, highest first, keeping items of equal score in their order.
fn sort_by_score<T>(v: Vec<(T, Option<i64>)>) -> (r: (Vec<(T, Option<i64>)>, Ghost<Seq<int>>))
    ensures
        sorts_by(v@, r.0@, r.1@),
{
    let ghost v0 = v@;
    let mut v = v;
    let mut out: Vec<(T, Option<i64>)> = Vec::new();
    let ghost mut p: Seq<int> = Seq::empty();
    let n = v.len();
    let mut i: usize = 0;
    while v.len() > 0
        invariant
            n == v0.len(),
            i <= v0.len(),
            v@ =~= v0.skip(i as int),
            sorts_by(v0.take(i as int), out@, p),
        decreases v.len(),
    {
        assert(i < v0.len());
        let x = v.remove(0);
        assert(x == v0[i as int]);
        let xs = x.1;
        let mut pos: usize = 0;
        while pos < out.len() && !score_below(out[pos].1, xs)
            invariant
                pos <= out@.len(),
                forall|q: int| 0 <= q < pos ==> !score_lt(#[trigger] out@[q].1, xs),
            decreases out.len() - pos,
        {
            pos += 1;
        }
        let ghost old_out = out@;
        let ghost old_p = p;
        proof {
            // everything from `pos` on scores below the new item
            assert forall|q: int| pos <= q < old_out.len() implies score_lt(
                #[trigger] old_out[q].1,
                xs,
            ) by {
                assert(score_lt(old_out[pos as int].1, xs));
                if q > pos {
                    assert(!score_lt(old_out[pos as int].1, old_out[q].1));
                }
            }
        }
        out.insert(pos, x);
        proof {
            p = old_p.insert(pos as int, i as int);
            let vt = v0.take(i + 1);
            assert(vt.take(i as int) =~= v0.take(i as int));
            assert forall|k: int| 0 <= k < out@.len() implies 0 <= #[trigger] p[k] < vt.len()
                && out@[k] == vt[p[k]] by {
                if k < pos {
                    assert(out@[k] == old_out[k]);
                    assert(p[k] == old_p[k]);
                } else if k > pos {
                    assert(out@[k] == old_out[k - 1]);
                    assert(p[k] == old_p[k - 1]);
                }
            }
            assert forall|a: int, b: int| 0 <= a < b < out@.len() implies #[trigger] p[a]
                != #[trigger] p[b] by {
                if a != pos && b != pos {
                    let a0 = if a < pos { a } else { a - 1 };
                    let b0 = if b < pos { b } else { b - 1 };
                    assert(old_p[a0] != old_p[b0]);
                }
            }
            assert forall|x: int| 0 <= x < vt.len() implies #[trigger] placed(p, x) by {
                if x == i {
                    assert(p[pos as int] == x);
                } else {
                    assert(placed(old_p, x));
                    let k0 = choose|k0: int| 0 <= k0 < old_p.len() && #[trigger] old_p[k0] == x;
                    if k0 < pos {
                        assert(p[k0] == x);
                    } else {
                        assert(p[k0 + 1] == x);
                    }
                }
            }
            assert forall|a: int, b: int| 0 <= a < b < out@.len() implies !score_lt(
                #[trigger] out@[a].1,
                #[trigger] out@[b].1,
            ) by {
                let a0 = if a < pos { a } else { a - 1 };
                let b0 = if b < pos { b } else { b - 1 };
                if a != pos && b != pos {
                    assert(!score_lt(old_out[a0].1, old_out[b0].1));
                } else if a == pos {
                    assert(score_lt(old_out[b0].1, xs));
                } else {
                    assert(!score_lt(old_out[a0].1, xs));
                }
            }
            assert forall|a: int, b: int|
                0 <= a < b < out@.len() && (#[trigger] out@[a]).1 == (#[trigger] out@[b]).1
                    implies p[a] < p[b] by {
                let a0 = if a < pos { a } else { a - 1 };
                let b0 = if b < pos { b } else { b - 1 };
                if a != pos && b != pos {
                    assert(old_out[a0].1 == old_out[b0].1);
                } else if a == pos {
                    assert(score_lt(old_out[b0].1, xs));
                } else {
                    assert(old_p[a0] < i);
                }
            }
        }
        i += 1;
    }
    assert(v0.take(v0.len() as int) =~= v0);
    (out, Ghost(p))
}

/// A copy of a list of strings.
fn copy_strings(v: &Vec<String>) -> (r: Vec<String>)
    ensures
        r@ == v@,
{
    let mut r: Vec<String> = Vec::new();
    let mut i: usize = 0;
    while i < v.len()
        invariant
            i <= v@.len(),
            r@ =~= v@.take(i as int),
        decreases v.len() - i,
    {
        r.push(v[i].clone());
        i += 1;
    }
    assert(v@.take(v@.len() as int) =~= v@);
    r
}

/// The paths that match the input at all, each with its score, in their order.
pub open spec fn matching(paths: Seq<String>, input: Seq<char>) -> Seq<(String, Option<i64>)>
    decreases paths.len(),
{
    if paths.len() == 0 {
        Seq::empty()
    } else {
        let prev = matching(paths.drop_last(), input);
        match skim_score(paths.last()@, input) {
            Some(s) => prev.push((paths.last(), Some(s))),
            None => prev,
        }
    }
}

/// The matching paths, best first: the stable sort of [`matching`] by score.
pub open spec fn ranks(paths: Seq<String>, input: Seq<char>, ranked: Seq<(String, Option<i64>)>) -> bool {
    stable_sorted_desc(matching(paths, input), ranked)
}

/// The parent of a path, as `std::path::Path::parent` gives it.
pub uninterp spec fn path_parent(p: Seq<char>) -> Option<Seq<char>>;

/// `std::path::Path::parent`: claimed to return the parent of the path, named
/// [`path_parent`], a function of the path's text alone.
#[verifier::external_body]
fn parent_of(p: &str) -> (r: Option<String>)
    ensures
        opt_string_view(r) == path_parent(p@),
{
    std::path::Path::new(p).parent().map(|q| q.to_string_lossy().into_owned())
}

/// The directory to fall back on: the input's parent, or `.` when it has none or an empty
/// one.
pub open spec fn fallback_dir(input: Seq<char>) -> Seq<char> {
    match path_parent(input) {
        Some(q) => if q.len() == 0 { seq!['.'] } else { q },
        None => seq!['.'],
    }
}

/// The directory to scan for completions: the input itself when it ends with `/`, else
/// [`fallback_dir`].
pub open spec fn scan_dir(input: Seq<char>) -> Seq<char> {
    if input.len() > 0 && input.last() == '/' { input } else { fallback_dir(input) }
}

/// The directory to scan for the input's completions, and the one to fall back on when it
/// does not exist.
pub fn scan_dirs(input: &str) -> (r: (String, String))
    ensures
        r.0@ == scan_dir(input@),
        r.1@ == fallback_dir(input@),
{
    proof {
        reveal_strlit(".");
    }
    assert("."@ =~= seq!['.']);
    let fb = match parent_of(input) {
        Some(q) => if q.as_str().is_empty() {
            ".".to_owned()
        } else {
            q
        },
        None => ".".to_owned(),
    };
    let cs = chars_of(input);
    let dir = if cs.len() > 0 && cs[cs.len() - 1] == '/' {
        input.to_owned()
    } else {
        fb.clone()
    };
    (dir, fb)
}

/// A directory entry: its path's text, and whether it is a directory.
pub struct EntryText {
    pub path: String,
    pub is_dir: bool,
}

/// What listing a directory gave: its entries, or that it does not exist, or that it could
/// not be listed for another reason.
pub enum DirListing {
    Found(Vec<EntryText>),
    NotFound,
    Failed,
}

/// The completion path of an entry: its path, a directory's followed by `/`.
pub open spec fn entry_view(e: EntryText) -> Seq<char> {
    if e.is_dir {
        e.path@ + seq!['/']
    } else {
        e.path@
    }
}

/// The completion paths of entries, in their order.
pub open spec fn entries_view(es: Seq<EntryText>) -> Seq<Seq<char>> {
    es.map_values(|e: EntryText| entry_view(e))
}

/// The completion paths of the entries of a listing.
pub fn entry_paths(es: &Vec<EntryText>) -> (r: Vec<String>)
    ensures
        strings_view(r@) == entries_view(es@),
{
    proof {
        reveal_strlit("/");
    }
    let mut r: Vec<String> = Vec::new();
    let mut i: usize = 0;
    while i < es.len()
        invariant
            i <= es@.len(),
            "/"@ == seq!['/'],
            strings_view(r@) =~= entries_view(es@).take(i as int),
        decreases es.len() - i,
    {
        let e = &es[i];
        let mut t = e.path.clone();
        if e.is_dir {
            t.append("/");
        }
        assert(t@ == entry_view(es@[i as int]));
        let ghost r0 = r@;
        r.push(t);
        assert(strings_view(r@) =~= strings_view(r0).push(t@));
        i += 1;
    }
    assert(entries_view(es@).take(es@.len() as int) =~= entries_view(es@));
    r
}

/// The paths to record after listing the directory to scan: its entries when it was
/// listed; none when it could not be listed for a reason other than not existing; and
/// `None` when it does not exist, so that the fallback directory is listed instead.
pub fn scan_result(scan: &DirListing) -> (r: Option<Vec<String>>)
    ensures
        match scan {
            DirListing::Found(es) => r matches Some(v) && strings_view(v@) == entries_view(es@),
            DirListing::NotFound => r is None,
            DirListing::Failed => r matches Some(v) && v@.len() == 0,
        },
{
    match scan {
        DirListing::Found(es) => Some(entry_paths(es)),
        DirListing::NotFound => None,
        DirListing::Failed => Some(Vec::new()),
    }
}

/// The paths to record after listing the fallback directory: its entries, or none when it
/// could not be listed.
pub fn fallback_result(fallback: &DirListing) -> (r: Vec<String>)
    ensures
        match fallback {
            DirListing::Found(es) => strings_view(r@) == entries_view(es@),
            _ => r@.len() == 0,
        },
{
    match fallback {
        DirListing::Found(es) => entry_paths(es),
        _ => Vec::new(),
    }
}

/// Completes file paths: the entries of the directory that the input names, ranked by how
/// well they match it.
#[derive(Clone)]
pub struct Comp {
    input: String,
    paths: Vec<String>,
}

impl Default for Comp {
    fn default() -> (r: Self)
        ensures
            r.input_text() == Seq::<char>::empty(),
            r.path_list().len() == 0,
    {
        Comp { input: String::new(), paths: Vec::new() }
    }
}

impl Comp {
    /// The input that the listed paths were scanned for.
    pub closed spec fn input_text(&self) -> Seq<char> {
        self.input@
    }

    /// The scanned paths.
    pub closed spec fn path_list(&self) -> Seq<String> {
        self.paths@
    }

    /// The paths must be scanned again: the input is not the one they were scanned for.
    pub fn needs_update(&self, input: &str) -> (r: bool)
        ensures
            r == (input@ != self.input_text()),
    {
        !str_eq(input, self.input.as_str())
    }

    /// Records the paths scanned for an input.
    pub fn set_paths(&mut self, input: &str, paths: Vec<String>)
        ensures
            final(self).input_text() == input@,
            final(self).path_list() == paths@,
    {
        self.input = input.to_owned();
        self.paths = paths;
    }

    /// Scans the directory that the input names, with `list` listing a directory, unless the
    /// paths were scanned for this very input, in which case nothing changes. The directory is
    /// the input itself when it ends with `/`, else its parent; when it does not exist, the
    /// fallback (the parent, or `.`) is listed instead; any other failure records no path.
    pub fn update_input<F: Fn(&str) -> DirListing>(&mut self, input: &str, list: F)
        requires
            forall|d: &str| #[trigger] list.requires((d,)),
        ensures
            old(self).input_text() == input@ ==> final(self).input_text() == old(self).input_text()
                && final(self).path_list() == old(self).path_list(),
            old(self).input_text() != input@ ==> final(self).input_text() == input@ && exists|
                d: &str,
                l: DirListing,
            |
                d@ == scan_dir(input@) && #[trigger] list.ensures((d,), l) && match l {
                    DirListing::Found(es) => strings_view(final(self).path_list())
                        == entries_view(es@),
                    DirListing::Failed => final(self).path_list().len() == 0,
                    DirListing::NotFound => exists|d2: &str, l2: DirListing|
                        d2@ == fallback_dir(input@) && #[trigger] list.ensures((d2,), l2) && match l2 {
                            DirListing::Found(es) => strings_view(final(self).path_list())
                                == entries_view(es@),
                            _ => final(self).path_list().len() == 0,
                        },
                },
    {
        if !self.needs_update(input) {
            return;
        }
        let (scan, fallback) = scan_dirs(input);
        let scan_s = scan.as_str();
        let l = list(scan_s);
        let paths = match scan_result(&l) {
            Some(paths) => paths,
            None => {
                let fallback_s = fallback.as_str();
                let l2 = list(fallback_s);
                assert(fallback_s@ == fallback_dir(input@));
                fallback_result(&l2)
            },
        };
        assert(scan_s@ == scan_dir(input@));
        self.set_paths(input, paths);
    }

    /// The paths that match the input, each with its score, best first; paths of equal
    /// score keep their order.
    pub fn fuzzy_sort(&self, input: &str) -> (r: Vec<(String, i64)>)
        ensures
            exists|ranked: Seq<(String, Option<i64>)>|
                #![trigger ranks(self.path_list(), input@, ranked)]
                ranks(self.path_list(), input@, ranked) && r@.len() == ranked.len() && forall|
                    k: int,
                | 0 <= k < ranked.len() ==> (#[trigger] r@[k]).0 == ranked[k].0 && Some(r@[k].1)
                    == ranked[k].1,
    {
        let mut scored: Vec<(String, Option<i64>)> = Vec::new();
        let mut i: usize = 0;
        while i < self.paths.len()
            invariant
                i <= self.paths@.len(),
                scored@ =~= matching(self.paths@.take(i as int), input@),
            decreases self.paths.len() - i,
        {
            let path = &self.paths[i];
            assert(self.paths@.take(i + 1).drop_last() =~= self.paths@.take(i as int));
            match fuzzy_score(path.as_str(), input) {
                Some(score) => scored.push((path.clone(), Some(score))),
                None => {},
            }
            i += 1;
        }
        assert(self.paths@.take(self.paths@.len() as int) =~= self.paths@);
        let ghost cand = scored@;
        proof {
            lemma_matching_scored(self.paths@, input@);
        }
        let (sorted, Ghost(p)) = sort_by_score(scored);
        let mut r: Vec<(String, i64)> = Vec::new();
        let mut k: usize = 0;
        while k < sorted.len()
            invariant
                k <= sorted@.len(),
                sorts_by(cand, sorted@, p),
                forall|x: int| 0 <= x < cand.len() ==> (#[trigger] cand[x]).1 is Some,
                r@.len() == k,
                forall|x: int|
                    0 <= x < k ==> (#[trigger] r@[x]).0 == sorted@[x].0 && Some(r@[x].1)
                        == sorted@[x].1,
            decreases sorted.len() - k,
        {
            assert(sorted@[k as int] == cand[p[k as int]]);
            let score = match sorted[k].1 {
                Some(s) => s,
                None => 0,
            };
            r.push((sorted[k].0.clone(), score));
            k += 1;
        }
        assert(ranks(self.path_list(), input@, sorted@));
        r
    }

    /// Up to fifteen paths that match the input, best first.
    pub fn suggestions(&self, input: &str) -> (r: Vec<String>)
        ensures
            exists|ranked: Seq<(String, Option<i64>)>|
                #![trigger ranks(self.path_list(), input@, ranked)]
                ranks(self.path_list(), input@, ranked) && r@ =~= ranked.take(
                    if ranked.len() < 15 { ranked.len() as int } else { 15 },
                ).map_values(|e: (String, Option<i64>)| e.0),
    {
        let m = self.fuzzy_sort(input);
        let mut r: Vec<String> = Vec::new();
        let mut k: usize = 0;
        while k < m.len() && k < 15
            invariant
                k <= m@.len(),
                k <= 15,
                r@.len() == k,
                forall|x: int| 0 <= x < k ==> #[trigger] r@[x] == m@[x].0,
            decreases m.len() - k,
        {
            r.push(m[k].0.clone());
            k += 1;
        }
        r
    }

    /// The completion of the input: the highlighted suggestion if there is one, else the
    /// best matching path, if any.
    pub fn completion(&self, input: &str, highlighted: Option<String>) -> (r: Option<String>)
        ensures
            highlighted is Some ==> r == highlighted,
            highlighted is None ==> exists|ranked: Seq<(String, Option<i64>)>|
                #![trigger ranks(self.path_list(), input@, ranked)]
                ranks(self.path_list(), input@, ranked) && if ranked.len() == 0 {
                    r is None
                } else {
                    r == Some(ranked[0].0)
                },
    {
        match highlighted {
            Some(e) => Some(e),
            None => {
                let m = self.fuzzy_sort(input);
                if m.len() == 0 {
                    None
                } else {
                    Some(m[0].0.clone())
                }
            },
        }
    }
}

/// `e` is one of the paths with the score that skim gives it, and it does score.
pub open spec fn scored_entry(paths: Seq<String>, input: Seq<char>, e: (String, Option<i64>)) -> bool {
    exists|i: int|
        0 <= i < paths.len() && e == (paths[i], skim_score(paths[i]@, input)) && (#[trigger] skim_score(
            paths[i]@,
            input,
        )) is Some
}

/// Path `i`, with its score, is among the entries `es`.
pub open spec fn listed_at(
    paths: Seq<String>,
    input: Seq<char>,
    es: Seq<(String, Option<i64>)>,
    i: int,
) -> bool {
    exists|k: int| 0 <= k < es.len() && #[trigger] es[k] == (paths[i], skim_score(paths[i]@, input))
}

/// The candidates are exactly the paths that skim scores at all, whatever the score: each
/// such path is among them with its score, and each of them is such a path.
proof fn lemma_matching_exact(paths: Seq<String>, input: Seq<char>)
    ensures
        forall|i: int|
            0 <= i < paths.len() && skim_score(paths[i]@, input) is Some ==> #[trigger] listed_at(
                paths,
                input,
                matching(paths, input),
                i,
            ),
        forall|k: int|
            0 <= k < matching(paths, input).len() ==> #[trigger] scored_entry(
                paths,
                input,
                matching(paths, input)[k],
            ),
    decreases paths.len(),
{
    if paths.len() > 0 {
        let d = paths.drop_last();
        lemma_matching_exact(d, input);
        let m = matching(paths, input);
        let md = matching(d, input);
        let n = paths.len() - 1;
        assert forall|i: int|
            0 <= i < paths.len() && skim_score(paths[i]@, input) is Some implies #[trigger] listed_at(
                paths,
                input,
                m,
                i,
            ) by {
            if i < n {
                assert(d[i] == paths[i]);
                assert(listed_at(d, input, md, i));
                let k = choose|k: int|
                    0 <= k < md.len() && #[trigger] md[k] == (d[i], skim_score(d[i]@, input));
                assert(m[k] == md[k]);
            } else {
                assert(m[m.len() - 1] == (paths[i], skim_score(paths[i]@, input)));
            }
        }
        assert forall|k: int| 0 <= k < m.len() implies #[trigger] scored_entry(paths, input, m[k]) by {
            if k < md.len() {
                assert(m[k] == md[k]);
                assert(scored_entry(d, input, md[k]));
                let i = choose|i: int|
                    0 <= i < d.len() && md[k] == (d[i], skim_score(d[i]@, input)) && (
                    #[trigger] skim_score(d[i]@, input)) is Some;
                assert(paths[i] == d[i]);
                assert(skim_score(paths[i]@, input) is Some);
            } else {
                assert(m[k] == (paths[n], skim_score(paths[n]@, input)));
                assert(skim_score(paths[n]@, input) is Some);
            }
        }
    }
}

/// The ranked paths are exactly the paths that skim scores at all, whatever the score (for
/// an empty input, where every path scores, every path is ranked): each scored path is
/// among them with its score, and each of them is a scored path.
pub proof fn lemma_ranked_are_the_scored(
    paths: Seq<String>,
    input: Seq<char>,
    ranked: Seq<(String, Option<i64>)>,
)
    requires
        ranks(paths, input, ranked),
    ensures
        forall|i: int|
            0 <= i < paths.len() && skim_score(paths[i]@, input) is Some ==> #[trigger] listed_at(
                paths,
                input,
                ranked,
                i,
            ),
        forall|k: int| 0 <= k < ranked.len() ==> #[trigger] scored_entry(paths, input, ranked[k]),
{
    let m = matching(paths, input);
    lemma_matching_exact(paths, input);
    let p = choose|p: Seq<int>| sorts_by(m, ranked, p);
    assert forall|i: int|
        0 <= i < paths.len() && skim_score(paths[i]@, input) is Some implies #[trigger] listed_at(
            paths,
            input,
            ranked,
            i,
        ) by {
        assert(listed_at(paths, input, m, i));
        let x = choose|x: int|
            0 <= x < m.len() && #[trigger] m[x] == (paths[i], skim_score(paths[i]@, input));
        assert(placed(p, x));
        let k = choose|k: int| 0 <= k < p.len() && #[trigger] p[k] == x;
        assert(ranked[k] == m[x]);
    }
    assert forall|k: int| 0 <= k < ranked.len() implies #[trigger] scored_entry(
        paths,
        input,
        ranked[k],
    ) by {
        assert(ranked[k] == m[p[k]]);
        assert(scored_entry(paths, input, m[p[k]]));
    }
}

proof fn lemma_matching_scored(paths: Seq<String>, input: Seq<char>)
    ensures
        forall|x: int|
            0 <= x < matching(paths, input).len() ==> (#[trigger] matching(paths, input)[x]).1 is Some,
    decreases paths.len(),
{
    if paths.len() > 0 {
        lemma_matching_scored(paths.drop_last(), input);
    }
}

/// The text of a row that the input is matched against: its cells separated by spaces.
pub open spec fn row_text<const S: usize>(row: [String; S]) -> Seq<char> {
    seq_join(strings_view(row@), seq![' '])
}

/// A row is matched on the text of all its cells joined by single spaces: cell `k` stands in
/// that text after the cells before it, each followed by one space; every cell after the
/// first follows a space; and nothing else is in it.
pub proof fn lemma_row_text_holds_every_cell<const S: usize>(row: [String; S])
    requires
        S > 0,
    ensures
        row_text(row).len() == join_offset(strings_view(row@), S - 1, 1) + row@[S - 1]@.len(),
        forall|k: int|
            0 <= k < S ==> row_text(row).subrange(
                #[trigger] join_offset(strings_view(row@), k, 1),
                join_offset(strings_view(row@), k, 1) + row@[k]@.len(),
            ) == row@[k]@,
        forall|k: int|
            0 < k < S ==> row_text(row)[#[trigger] join_offset(strings_view(row@), k, 1) - 1]
                == ' ',
{
    let cells = strings_view(row@);
    lemma_join_parts(cells, seq![' ']);
    assert forall|k: int| 0 < k < S implies row_text(row)[#[trigger] join_offset(cells, k, 1) - 1]
        == ' ' by {
        let o = join_offset(cells, k, 1);
        lemma_join_offset_grows(cells, k, S - 1, 1);
        lemma_join_offset_grows(cells, k - 1, k - 1, 1);
        assert(row_text(row).subrange(o - 1, o) == seq![' ']);
        assert(row_text(row).subrange(o - 1, o)[0] == row_text(row)[o - 1]);
    }
}

/// Each row's place with its score against the input.
pub open spec fn scored_rows<const S: usize>(rows: Seq<[String; S]>, input: Seq<char>) -> Seq<
    (usize, Option<i64>),
> {
    Seq::new(rows.len(), |k: int| (k as usize, skim_score(row_text(rows[k]), input)))
}

/// The text of a row.
fn join_row<const S: usize>(row: &[String; S]) -> (r: String)
    ensures
        r@ == row_text(*row),
{
    let mut cells: Vec<String> = Vec::new();
    let mut i: usize = 0;
    while i < S
        invariant
            i <= S,
            cells@ =~= row@.take(i as int),
        decreases S - i,
    {
        cells.push(row[i].clone());
        i += 1;
    }
    assert(row@.take(S as int) =~= row@);
    proof {
        reveal_strlit(" ");
    }
    assert(" "@ =~= seq![' ']);
    join_strings(&cells, " ")
}

/// A text prompt's completer over a list of items, each shown as a row of `S` cells; the
/// suggestions are all the rows, laid out as a table, best match first.
#[derive(Clone)]
pub struct TextWithAutocomplete<const S: usize> {
    rows: Vec<[String; S]>,
    input: String,
    matches: Vec<String>,
}

impl<const S: usize> TextWithAutocomplete<S> {
    /// The rows of the items, in the items' order.
    pub closed spec fn row_list(&self) -> Seq<[String; S]> {
        self.rows@
    }

    /// The input that the suggestions were ranked for.
    pub closed spec fn input_text(&self) -> Seq<char> {
        self.input@
    }

    /// The suggestions, best first.
    pub closed spec fn match_lines(&self) -> Seq<Seq<char>> {
        strings_view(self.matches@)
    }

    /// A completer over `i`, each item shown as the row that `print` gives it.
    pub fn new<I, F: Fn(&I) -> [String; S]>(i: Vec<I>, print: F) -> (r: Self)
        requires
            forall|k: int| 0 <= k < i@.len() ==> print.requires((&i@[k],)),
        ensures
            r.row_list().len() == i@.len(),
            forall|k: int|
                0 <= k < i@.len() ==> print.ensures((&i@[k],), #[trigger] r.row_list()[k]),
            r.input_text() == Seq::<char>::empty(),
            r.match_lines() == Seq::<Seq<char>>::empty(),
    {
        let mut rows: Vec<[String; S]> = Vec::new();
        let mut k: usize = 0;
        while k < i.len()
            invariant
                k <= i@.len(),
                rows@.len() == k,
                forall|x: int| 0 <= x < i@.len() ==> print.requires((&i@[x],)),
                forall|x: int| 0 <= x < k ==> print.ensures((&i@[x],), #[trigger] rows@[x]),
            decreases i.len() - k,
        {
            let row = print(&i[k]);
            rows.push(row);
            k += 1;
        }
        let r = TextWithAutocomplete { rows, input: String::new(), matches: Vec::new() };
        assert(r.match_lines() =~= Seq::<Seq<char>>::empty());
        r
    }

    /// `new` is this completer with its suggestions brought up to date for `input`: the
    /// rows stay; for the input the suggestions were ranked for, nothing changes; for
    /// another input, the suggestions are all the rows as table lines, best match first.
    pub open spec fn brought_up_to(self, new: Self, input: Seq<char>) -> bool {
        &&& new.row_list() == self.row_list()
        &&& self.input_text() == input ==> new.match_lines() == self.match_lines()
            && new.input_text() == self.input_text()
        &&& self.input_text() != input ==> new.input_text() == input && exists|
            ranked: Seq<(usize, Option<i64>)>,
        |
            #![trigger stable_sorted_desc(scored_rows(self.row_list(), input), ranked)]
            stable_sorted_desc(scored_rows(self.row_list(), input), ranked)
                && new.match_lines() == Seq::new(
                ranked.len(),
                |k: int|
                    table_line(
                        rows_view(self.row_list()),
                        rows_view(self.row_list())[ranked[k].0 as int],
                    ),
            )
    }

    /// Ranks the rows against a new input; the same input again changes nothing.
    pub fn update_input(&mut self, input: &str)
        ensures
            old(self).brought_up_to(*final(self), input@),
    {
        if str_eq(input, self.input.as_str()) {
            return;
        }
        self.input = input.to_owned();
        let ghost rows = self.rows@;
        let mut scored: Vec<(usize, Option<i64>)> = Vec::new();
        let mut k: usize = 0;
        while k < self.rows.len()
            invariant
                k <= self.rows@.len(),
                self.rows@ == rows,
                scored@ =~= scored_rows(rows, input@).take(k as int),
            decreases self.rows.len() - k,
        {
            let t = join_row(&self.rows[k]);
            scored.push((k, fuzzy_score(t.as_str(), input)));
            k += 1;
        }
        assert(scored_rows(rows, input@).take(rows.len() as int) =~= scored_rows(rows, input@));
        let ghost cand = scored@;
        let lines = to_lines(self.rows.as_slice());
        assert(strings_view(lines@).len() == rows.len());
        let (sorted, Ghost(p)) = sort_by_score(scored);
        let mut m: Vec<String> = Vec::new();
        let mut j: usize = 0;
        while j < sorted.len()
            invariant
                j <= sorted@.len(),
                sorts_by(cand, sorted@, p),
                cand == scored_rows(rows, input@),
                lines@.len() == rows.len(),
                strings_view(lines@) == crate::table::table_lines(rows_view(rows)),
                strings_view(m@) =~= Seq::new(
                    j as nat,
                    |x: int| table_line(rows_view(rows), rows_view(rows)[sorted@[x].0 as int]),
                ),
            decreases sorted.len() - j,
        {
            let idx = sorted[j].0;
            assert(sorted@[j as int] == cand[p[j as int]]);
            assert(idx < rows.len());
            let ghost m0 = m@;
            assert(strings_view(lines@)[idx as int] == lines@[idx as int]@);
            m.push(lines[idx].clone());
            assert(strings_view(m@) =~= strings_view(m0).push(lines@[idx as int]@));
            j += 1;
        }
        self.matches = m;
        assert(rows == old(self).row_list());
        assert(stable_sorted_desc(scored_rows(old(self).row_list(), input@), sorted@));
        assert(self.match_lines() =~= Seq::new(
            sorted@.len(),
            |k: int|
                table_line(
                    rows_view(old(self).row_list()),
                    rows_view(old(self).row_list())[sorted@[k].0 as int],
                ),
        ));
    }

    /// The suggestions for an input.
    pub fn suggestions(&mut self, input: &str) -> (r: Vec<String>)
        ensures
            old(self).brought_up_to(*final(self), input@),
            final(self).input_text() == input@,
            strings_view(r@) == final(self).match_lines(),
    {
        self.update_input(input);
        copy_strings(&self.matches)
    }

    /// The completion of an input: the highlighted suggestion if there is one, else the best
    /// suggestion, if any.
    pub fn completion(&mut self, input: &str, highlighted: Option<String>) -> (r: Option<String>)
        ensures
            old(self).brought_up_to(*final(self), input@),
            final(self).input_text() == input@,
            highlighted is Some ==> r == highlighted,
            highlighted is None ==> if final(self).match_lines().len() == 0 {
                r is None
            } else {
                r matches Some(t) && t@ == final(self).match_lines()[0]
            },
    {
        self.update_input(input);
        match highlighted {
            Some(e) => Some(e),
            None => {
                if self.matches.len() == 0 {
                    None
                } else {
                    Some(self.matches[0].clone())
                }
            },
        }
    }
}

} // verus!
