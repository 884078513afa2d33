//! Verified helpers over string contents, stated over `Seq<char>` views.
use vstd::prelude::*;

verus! {

broadcast use vstd::string::group_string_axioms;

/// `p` is a prefix of `s`.
pub open spec fn seq_starts_with(s: Seq<char>, p: Seq<char>) -> bool {
    p.len() <= s.len() && s.subrange(0, p.len() as int) == p
}

/// The characters of `s`, in order.
pub fn chars_of(s: &str) -> (r: Vec<char>)
    ensures
        r@ == s@,
{
    let mut it = s.chars();
    let mut r: Vec<char> = Vec::new();
    loop
        invariant
            vstd::std_specs::iter::IteratorSpec::obeys_prophetic_iter_laws(&it),
            r@ + vstd::std_specs::iter::IteratorSpec::remaining(&it) == s@,
            vstd::std_specs::iter::IteratorSpec::decrease(&it) is Some,
        decreases vstd::std_specs::iter::IteratorSpec::decrease(&it)->0,
    {
        match it.next() {
            Some(c) => {
                r.push(c);
            },
            None => {
                return r;
            },
        }
    }
}

/// Whether `v` begins with the characters of `p`.
pub fn chars_start_with(v: &Vec<char>, p: &Vec<char>) -> (r: bool)
    ensures
        r == seq_starts_with(v@, p@),
{
    if p.len() > v.len() {
        return false;
    }
    let mut i: usize = 0;
    while i < p.len()
        invariant
            p.len() <= v.len(),
            i <= p.len(),
            forall|j: int| 0 <= j < i ==> v@[j] == p@[j],
        decreases p.len() - i,
    {
        if v[i] != p[i] {
            assert(v@.subrange(0, p@.len() as int)[i as int] != p@[i as int]);
            return false;
        }
        i += 1;
    }
    assert(v@.subrange(0, p@.len() as int) =~= p@);
    true
}

/// Whether `s` begins with `p`.
pub fn str_starts_with(s: &str, p: &str) -> (r: bool)
    ensures
        r == seq_starts_with(s@, p@),
{
    let sv = chars_of(s);
    let pv = chars_of(p);
    chars_start_with(&sv, &pv)
}

/// Whether `a` and `b` hold the same characters.
pub fn str_eq(a: &str, b: &str) -> (r: bool)
    ensures
        r == (a@ == b@),
{
    let av = chars_of(a);
    let bv = chars_of(b);
    if av.len() != bv.len() {
        return false;
    }
    let r = chars_start_with(&av, &bv);
    assert(av@.subrange(0, bv@.len() as int) =~= av@);
    r
}

/// `n` spaces.
pub open spec fn spaces_seq(n: nat) -> Seq<char> {
    Seq::new(n, |_i: int| ' ')
}

/// A string of `n` spaces.
pub fn spaces(n: usize) -> (r: String)
    ensures
        r@ == spaces_seq(n as nat),
{
    let mut r = String::new();
    let mut i: usize = 0;
    while i < n
        invariant
            i <= n,
            r@ == spaces_seq(i as nat),
        decreases n - i,
    {
        r.append(" ");
        proof {
            reveal_strlit(" ");
        }
        assert(r@ =~= spaces_seq((i + 1) as nat));
        i += 1;
    }
    r
}

/// The parts joined with `sep` between consecutive parts.
pub open spec fn seq_join(parts: Seq<Seq<char>>, sep: Seq<char>) -> Seq<char>
    decreases parts.len(),
{
    if parts.len() == 0 {
        Seq::empty()
    } else if parts.len() == 1 {
        parts[0]
    } else {
        seq_join(parts.drop_last(), sep) + sep + parts.last()
    }
}

/// Where part `k` starts in the parts joined by a separator of length `sep_len`: the lengths
/// of the parts before it, each followed by a separator.
pub open spec fn join_offset(parts: Seq<Seq<char>>, k: int, sep_len: int) -> int
    decreases k,
{
    if k <= 0 {
        0
    } else {
        join_offset(parts, k - 1, sep_len) + parts[k - 1].len() + sep_len
    }
}

proof fn lemma_join_offset_prefix(parts: Seq<Seq<char>>, n: int, k: int, sep_len: int)
    requires
        0 <= k <= n <= parts.len(),
    ensures
        join_offset(parts.take(n), k, sep_len) == join_offset(parts, k, sep_len),
    decreases k,
{
    if k > 0 {
        lemma_join_offset_prefix(parts, n, k - 1, sep_len);
        assert(parts.take(n)[k - 1] == parts[k - 1]);
    }
}

/// Offsets do not decrease, and a part ends no later than any later part.
pub proof fn lemma_join_offset_grows(parts: Seq<Seq<char>>, k: int, m: int, sep_len: int)
    requires
        0 <= k <= m < parts.len(),
        sep_len >= 0,
    ensures
        0 <= join_offset(parts, k, sep_len),
        join_offset(parts, k, sep_len) + parts[k].len() <= join_offset(parts, m, sep_len)
            + parts[m].len(),
    decreases m,
{
    if m > k {
        lemma_join_offset_grows(parts, k, m - 1, sep_len);
    } else if k > 0 {
        lemma_join_offset_grows(parts, k - 1, k - 1, sep_len);
    }
}

/// In parts joined by a separator, each part stands at its offset, each part after the
/// first right behind a separator, and the whole is the parts and separators end to end.
pub proof fn lemma_join_parts(parts: Seq<Seq<char>>, sep: Seq<char>)
    requires
        parts.len() > 0,
    ensures
        seq_join(parts, sep).len() == join_offset(parts, parts.len() - 1, sep.len() as int)
            + parts.last().len(),
        forall|k: int|
            0 <= k < parts.len() ==> seq_join(parts, sep).subrange(
                join_offset(parts, k, sep.len() as int),
                join_offset(parts, k, sep.len() as int) + parts[k].len(),
            ) == parts[k] && #[trigger] join_offset(parts, k, sep.len() as int) >= 0,
        forall|k: int|
            0 < k < parts.len() ==> seq_join(parts, sep).subrange(
                #[trigger] join_offset(parts, k, sep.len() as int) - sep.len(),
                join_offset(parts, k, sep.len() as int),
            ) == sep,
    decreases parts.len(),
{
    let n = parts.len() as int;
    let l = sep.len() as int;
    let j = seq_join(parts, sep);
    if n == 1 {
        assert(j == parts[0]);
        assert(j.subrange(0, parts[0].len() as int) =~= parts[0]);
    } else {
        let d = parts.drop_last();
        lemma_join_parts(d, sep);
        let jd = seq_join(d, sep);
        assert(j == jd + sep + parts.last());
        assert(d =~= parts.take(n - 1));
        assert forall|k: int| 0 <= k < n implies #[trigger] join_offset(parts, k, l) == join_offset(
            d,
            k,
            l,
        ) by {
            lemma_join_offset_prefix(parts, n - 1, k, l);
        }
        assert(join_offset(parts, n - 1, l) == join_offset(parts, n - 2, l) + parts[n - 2].len()
            + l);
        assert(join_offset(d, n - 2, l) >= 0);
        assert(jd.len() == join_offset(d, n - 2, l) + d.last().len());
        assert forall|k: int| 0 <= k < n implies j.subrange(
            join_offset(parts, k, l),
            join_offset(parts, k, l) + parts[k].len(),
        ) == parts[k] && #[trigger] join_offset(parts, k, l) >= 0 by {
            if k < n - 1 {
                lemma_join_offset_grows(d, k, n - 2, l);
                assert(j.subrange(join_offset(d, k, l), join_offset(d, k, l) + d[k].len())
                    =~= jd.subrange(join_offset(d, k, l), join_offset(d, k, l) + d[k].len()));
            } else {
                assert(j.subrange(jd.len() + l, jd.len() + l + parts[k].len()) =~= parts.last());
            }
        }
        assert forall|k: int| 0 < k < n implies j.subrange(
            #[trigger] join_offset(parts, k, l) - l,
            join_offset(parts, k, l),
        ) == sep by {
            if k < n - 1 {
                lemma_join_offset_grows(d, k, n - 2, l);
                assert(join_offset(d, k, l) == join_offset(d, k - 1, l) + d[k - 1].len() + l);
                lemma_join_offset_grows(d, k - 1, k - 1, l);
                assert(j.subrange(join_offset(d, k, l) - l, join_offset(d, k, l)) =~= jd.subrange(
                    join_offset(d, k, l) - l,
                    join_offset(d, k, l),
                ));
            } else {
                assert(j.subrange(jd.len() as int, jd.len() + l) =~= sep);
            }
        }
    }
}

/// The views of a sequence of strings.
pub open spec fn strings_view(v: Seq<String>) -> Seq<Seq<char>> {
    v.map_values(|s: String| s@)
}

/// The views of a sequence of string slices.
pub open spec fn strs_view(v: Seq<&str>) -> Seq<Seq<char>> {
    v.map_values(|s: &str| s@)
}

/// Joins `parts` with `sep` between consecutive parts.
pub fn join_strings(parts: &Vec<String>, sep: &str) -> (r: String)
    ensures
        r@ == seq_join(strings_view(parts@), sep@),
{
    let ghost pv = strings_view(parts@);
    let mut r = String::new();
    let mut i: usize = 0;
    while i < parts.len()
        invariant
            i <= parts.len(),
            pv == strings_view(parts@),
            r@ == seq_join(pv.take(i as int), sep@),
        decreases parts.len() - i,
    {
        if i != 0 {
            r.append(sep);
        }
        r.append(parts[i].as_str());
        assert(pv.take(i + 1).drop_last() =~= pv.take(i as int));
        i += 1;
    }
    assert(pv.take(parts.len() as int) =~= pv);
    r
}

/// Joins `parts` with `sep` between consecutive parts.
pub fn join_strs(parts: &Vec<&str>, sep: &str) -> (r: String)
    ensures
        r@ == seq_join(strs_view(parts@), sep@),
{
    let ghost pv = strs_view(parts@);
    let mut r = String::new();
    let mut i: usize = 0;
    while i < parts.len()
        invariant
            i <= parts.len(),
            pv == strs_view(parts@),
            r@ == seq_join(pv.take(i as int), sep@),
        decreases parts.len() - i,
    {
        if i != 0 {
            r.append(sep);
        }
        r.append(parts[i]);
        assert(pv.take(i + 1).drop_last() =~= pv.take(i as int));
        i += 1;
    }
    assert(pv.take(parts.len() as int) =~= pv);
    r
}

} // verus!
