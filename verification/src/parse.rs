//! Grouping the tokens of a command line by the option key that precedes them.
use vstd::prelude::*;
use itertools::Itertools;

use crate::{DisplayVec, ErrVal, Parse, Show};
use crate::text::{seq_starts_with, str_eq, str_starts_with, strs_view};

verus! {

/// The prefix that marks a token as an option key.
pub const PFX: &'static str = "--";

/// The characters of [`PFX`].
pub open spec fn key_prefix() -> Seq<char> {
    seq!['-', '-']
}

/// A token that starts with the key prefix.
pub open spec fn is_key_token(a: Seq<char>) -> bool {
    seq_starts_with(a, key_prefix())
}

/// The last key token of `args`, if there is one.
pub open spec fn last_key(args: Seq<Seq<char>>) -> Option<Seq<char>>
    decreases args.len(),
{
    if args.len() == 0 {
        None
    } else if is_key_token(args.last()) {
        Some(args.last())
    } else {
        last_key(args.drop_last())
    }
}

/// Each token paired with the key that owns it: the last key token at or before it.
pub open spec fn tagged(args: Seq<Seq<char>>) -> Seq<(Option<Seq<char>>, Seq<char>)> {
    Seq::new(args.len(), |i: int| (last_key(args.take(i + 1)), args[i]))
}

/// The values of the pairs whose key is `key`, in their order.
pub open spec fn group_by(pairs: Seq<(Option<Seq<char>>, Seq<char>)>, key: Option<Seq<char>>) -> Seq<Seq<char>>
    decreases pairs.len(),
{
    if pairs.len() == 0 {
        Seq::empty()
    } else if pairs.last().0 == key {
        group_by(pairs.drop_last(), key).push(pairs.last().1)
    } else {
        group_by(pairs.drop_last(), key)
    }
}

/// The contents of an optional string slice.
pub open spec fn opt_view(o: Option<&str>) -> Option<Seq<char>> {
    match o {
        Some(s) => Some(s@),
        None => None,
    }
}

/// The contents of key/value pairs.
pub open spec fn pairs_view(p: Seq<(Option<&str>, &str)>) -> Seq<(Option<Seq<char>>, Seq<char>)> {
    p.map_values(|e: (Option<&str>, &str)| (opt_view(e.0), e.1@))
}

/// Gathers the values of `pairs` under their keys with `Itertools::into_group_map`,
/// then lists the resulting map's entries.
///
/// Claimed of itertools' `into_group_map`: each key of the input occurs in exactly one
/// entry, no entry holds a key that the input lacks, and an entry's values are the values
/// paired with its key, in input order. Keys compare by content. The order of the entries
/// is that of a `HashMap` walk and is left unsaid.
#[verifier::external_body]
fn group_pairs<'c>(pairs: Vec<(Option<&'c str>, &'c str)>) -> (r: Vec<(Option<&'c str>, Vec<&'c str>)>)
    ensures
        forall|a: int, b: int|
            0 <= a < r@.len() && 0 <= b < r@.len() && a != b ==> opt_view(#[trigger] r@[a].0)
                != opt_view(#[trigger] r@[b].0),
        forall|j: int|
            0 <= j < r@.len() ==> strs_view(#[trigger] r@[j].1@) == group_by(
                pairs_view(pairs@),
                opt_view(r@[j].0),
            ) && r@[j].1@.len() > 0,
        forall|i: int|
            0 <= i < pairs@.len() ==> exists|j: int|
                0 <= j < r@.len() && opt_view(#[trigger] r@[j].0) == opt_view(
                    #[trigger] pairs@[i].0,
                ),
{
    pairs.into_iter().into_group_map().into_iter().collect()
}

/// The values that follow one option key, or the tokens that precede every key.
pub struct Key<'a> {
    pub k: Option<&'a str>,
    pub v: Vec<&'a str>,
    pub used: bool,
}

/// A command line split into groups, one per distinct key.
pub struct ParsedArgs<'c> {
    pub k: Vec<Key<'c>>,
}

/// The key of a group, by content.
pub open spec fn key_name(k: Key) -> Option<Seq<char>> {
    opt_view(k.k)
}

/// Index `j` is the first group whose key is `name`.
pub open spec fn is_first_key(keys: Seq<Key>, name: Seq<char>, j: int) -> bool {
    &&& 0 <= j < keys.len()
    &&& key_name(keys[j]) == Some(name)
    &&& forall|i: int| 0 <= i < j ==> key_name(#[trigger] keys[i]) != Some(name)
}

/// The first group whose key is `name`, if any.
pub open spec fn find_key(keys: Seq<Key>, name: Seq<char>) -> Option<int> {
    if exists|j: int| is_first_key(keys, name, j) {
        Some(choose|j: int| is_first_key(keys, name, j))
    } else {
        None
    }
}

/// The values of the group for `key` in a command line: every token that `key` owns,
/// less the key token itself.
pub open spec fn key_values(args: Seq<Seq<char>>, key: Option<Seq<char>>) -> Seq<Seq<char>> {
    let g = group_by(tagged(args), key);
    if key is Some { g.drop_first() } else { g }
}

/// `p` holds one unused group per distinct owner in `args`, with that owner's values.
pub open spec fn groups_args(p: Seq<Key>, args: Seq<Seq<char>>) -> bool {
    &&& forall|j: int| 0 <= j < p.len() ==> !(#[trigger] p[j]).used
    &&& forall|a: int, b: int|
        0 <= a < p.len() && 0 <= b < p.len() && a != b ==> key_name(#[trigger] p[a])
            != key_name(#[trigger] p[b])
    &&& forall|j: int|
        0 <= j < p.len() ==> strs_view((#[trigger] p[j]).v@) == key_values(args, key_name(p[j]))
            && group_by(tagged(args), key_name(p[j])).len() > 0
    &&& forall|i: int|
        0 <= i < args.len() ==> exists|j: int|
            0 <= j < p.len() && key_name(#[trigger] p[j]) == (#[trigger] tagged(args)[i]).0
}

impl<'c> ParsedArgs<'c> {
    /// Splits a command line into groups: each token belongs to the last key token at or
    /// before it (tokens before any key belong to no key), one group per distinct key.
    /// A key's group holds every token that the key owns, repeated key tokens included,
    /// less its first token, the key itself.
    pub fn new(args: &[&'c str]) -> (r: Self)
        ensures
            groups_args(r.k@, strs_view(args@)),
    {
        let ghost av = strs_view(args@);
        proof {
            reveal_strlit("--");
        }
        let mut last: Option<&'c str> = None;
        let mut pairs: Vec<(Option<&'c str>, &'c str)> = Vec::new();
        let mut i: usize = 0;
        while i < args.len()
            invariant
                i <= args@.len(),
                av == strs_view(args@),
                PFX@ == key_prefix(),
                opt_view(last) == last_key(av.take(i as int)),
                pairs_view(pairs@) =~= tagged(av).take(i as int),
            decreases args.len() - i,
        {
            let a = args[i];
            if str_starts_with(a, PFX) {
                last = Some(a);
            }
            assert(av.take(i + 1).drop_last() =~= av.take(i as int));
            assert(av.take(i + 1).last() == a@);
            assert(last_key(av.take(i + 1)) == opt_view(last));
            let ghost before = pairs@;
            pairs.push((last, a));
            assert(pairs_view(pairs@) =~= pairs_view(before).push((opt_view(last), a@)));
            assert(tagged(av).take(i + 1) =~= tagged(av).take(i as int).push(tagged(av)[i as int]));
            i += 1;
        }
        assert(tagged(av).take(args@.len() as int) =~= tagged(av));
        let mut groups = group_pairs(pairs);
        let ghost g0 = groups@;
        assert forall|j: int| 0 <= j < g0.len() implies (#[trigger] g0[j]).1@.len() > 0 by {
            assert(strs_view(g0[j].1@) == group_by(pairs_view(pairs@), opt_view(g0[j].0)));
        }
        let mut out: Vec<Key<'c>> = Vec::new();
        while groups.len() > 0
            invariant
                out@.len() <= g0.len(),
                forall|j: int| 0 <= j < g0.len() ==> (#[trigger] g0[j]).1@.len() > 0,
                groups@ =~= g0.skip(out@.len() as int),
                forall|m: int|
                    #![trigger out@[m]]
                    0 <= m < out@.len() ==> {
                        &&& key_name(out@[m]) == opt_view(g0[m].0)
                        &&& !out@[m].used
                        &&& strs_view(out@[m].v@) == if g0[m].0 is Some {
                            strs_view(g0[m].1@).drop_first()
                        } else {
                            strs_view(g0[m].1@)
                        }
                    },
            decreases groups.len(),
        {
            let ghost m = out@.len() as int;
            let (key, mut v) = groups.remove(0);
            assert(key == g0[m].0 && v == g0[m].1);
            if key.is_some() {
                v.remove(0);
                assert(strs_view(v@) =~= strs_view(g0[m].1@).drop_first());
            }
            out.push(Key { k: key, v, used: false });
        }
        assert(out@.len() == g0.len());
        let ghost p = out@;
        assert forall|j: int| 0 <= j < p.len() implies strs_view((#[trigger] p[j]).v@)
            == key_values(av, key_name(p[j])) && group_by(tagged(av), key_name(p[j])).len() > 0 by {
            assert(strs_view(g0[j].1@) == group_by(pairs_view(pairs@), opt_view(g0[j].0)));
        }
        assert forall|i: int| 0 <= i < av.len() implies exists|j: int|
            0 <= j < p.len() && key_name(#[trigger] p[j]) == (#[trigger] tagged(av)[i]).0 by {
            assert(pairs_view(pairs@)[i] == tagged(av)[i]);
            assert(opt_view(pairs@[i].0) == tagged(av)[i].0);
            let j = choose|j: int| 0 <= j < g0.len() && opt_view(#[trigger] g0[j].0) == opt_view(pairs@[i].0);
            assert(key_name(p[j]) == opt_view(g0[j].0));
        }
        assert forall|a: int, b: int|
            0 <= a < p.len() && 0 <= b < p.len() && a != b implies key_name(#[trigger] p[a])
                != key_name(#[trigger] p[b]) by {
            assert(key_name(p[a]) == opt_view(g0[a].0));
            assert(key_name(p[b]) == opt_view(g0[b].0));
        }
        ParsedArgs { k: out }
    }

    /// Marks the first group whose key is `name` as used and returns its values.
    pub fn consume(&mut self, name: &str) -> (r: Option<&Vec<&'c str>>)
        requires
            find_key(old(self).k@, name@) matches Some(j) ==> !old(self).k@[j].used,
        ensures
            match find_key(old(self).k@, name@) {
                None => r is None && final(self).k@ == old(self).k@,
                Some(j) => {
                    &&& r == Some(&old(self).k@[j].v)
                    &&& final(self).k@.len() == old(self).k@.len()
                    &&& final(self).k@[j].used
                    &&& final(self).k@[j].k == old(self).k@[j].k
                    &&& final(self).k@[j].v == old(self).k@[j].v
                    &&& forall|i: int|
                        0 <= i < old(self).k@.len() && i != j ==> final(self).k@[i]
                            == old(self).k@[i]
                },
            },
    {
        let mut i: usize = 0;
        while i < self.k.len()
            invariant
                i <= self.k@.len(),
                self.k@ == old(self).k@,
                forall|m: int| 0 <= m < i ==> key_name(#[trigger] self.k@[m]) != Some(name@),
            decreases self.k.len() - i,
        {
            let hit = match self.k[i].k {
                Some(s) => str_eq(s, name),
                None => false,
            };
            if hit {
                assert(is_first_key(self.k@, name@, i as int));
                proof {
                    let j = choose|j: int| is_first_key(self.k@, name@, j);
                    assert(j == i) by {
                        if j < i {
                            assert(key_name(self.k@[j]) != Some(name@));
                        }
                        if j > i {
                            assert(key_name(self.k@[i as int]) != Some(name@));
                        }
                    }
                }
                self.k[i].used = true;
                return Some(&self.k[i].v);
            }
            i += 1;
        }
        assert(find_key(self.k@, name@) is None) by {
            if exists|j: int| is_first_key(self.k@, name@, j) {
                let j = choose|j: int| is_first_key(self.k@, name@, j);
                assert(key_name(self.k@[j]) != Some(name@));
            }
        }
        None
    }
}

/// Computes a default value from the context.
pub trait DynInit<C, T> {
    /// `v` is a value that this default may compute in context `c`. A default that states
    /// nothing allows every value.
    open spec fn gives(&self, c: C, v: T) -> bool {
        true
    }

    fn init(&self, c: &C) -> (r: T)
        ensures
            self.gives(*c, r),
    ;
}

/// The default of an option: none, a constant, or one computed from the context.
#[verifier::reject_recursive_types(C)]
#[verifier::reject_recursive_types(T)]
pub enum Init<C, T> {
    Unset,
    Const(T),
    Dyn(Box<dyn DynInit<C, T>>),
}

impl<C, T> Init<C, T> {
    /// The default value, if there is one.
    pub fn get(self, c: &C) -> (r: Option<T>)
        ensures
            match self {
                Init::Unset => r is None,
                Init::Const(v) => r == Some(v),
                Init::Dyn(f) => r matches Some(v) && f.gives(*c, v),
            },
    {
        match self {
            Init::Unset => None,
            Init::Const(v) => Some(v),
            Init::Dyn(f) => Some(f.init(c)),
        }
    }
}

/// The note on a default shown as `t` in help output.
pub open spec fn default_note(t: Seq<char>) -> Seq<char> {
    " (default: "@ + t + ")"@
}

/// `note` is the help output's note on default `i`: empty when there is none, else the
/// default as shown; a computed default is a value that it may compute in context `c`.
pub open spec fn notes_default<C, T: Show>(i: Init<C, T>, c: C, note: Seq<char>) -> bool {
    match i {
        Init::Unset => note == Seq::<char>::empty(),
        Init::Const(v) => exists|t: Seq<char>| #[trigger] v.shows(t) && note == default_note(t),
        Init::Dyn(f) => exists|x: T, t: Seq<char>|
            f.gives(c, x) && #[trigger] x.shows(t) && note == default_note(t),
    }
}

impl<C, T: Show> Init<C, T> {
    /// The note on the default shown in help output: empty when there is none.
    fn to_string(self, c: &C) -> (r: String)
        ensures
            notes_default(self, *c, r@),
    {
        let ghost i = self;
        match self.get(c) {
            Some(s) => {
                let mut r = String::new();
                r.append(" (default: ");
                let t = s.show();
                r.append(t.as_str());
                r.append(")");
                assert(r@ =~= default_note(t@));
                assert(s.shows(t@));
                r
            },
            None => String::new(),
        }
    }
}

/// Failure to read one option.
pub enum ErrArg {
    Val { arg: String, e: ErrVal },
    OnlyOne { arg: String },
    Required { arg: String },
    AtLeastOne { arg: String },
}

impl ErrArg {
    /// The message of this error.
    pub open spec fn text(&self) -> Seq<char> {
        match self {
            ErrArg::Val { arg, e } => "Failed while parsing values for '"@ + arg@ + "': "@ + e.text(),
            ErrArg::OnlyOne { arg } => "'"@ + arg@ + "' must be one value."@,
            ErrArg::Required { arg } => "'"@ + arg@ + "' is required."@,
            ErrArg::AtLeastOne { arg } => "'"@ + arg@ + "' requires at least one value."@,
        }
    }

    /// The message of this error.
    pub fn to_string(&self) -> (r: String)
        ensures
            r@ == self.text(),
    {
        let mut r = String::new();
        match self {
            ErrArg::Val { arg, e } => {
                r.append("Failed while parsing values for '");
                r.append(arg.as_str());
                r.append("': ");
                let t = e.to_string();
                r.append(t.as_str());
            },
            ErrArg::OnlyOne { arg } => {
                r.append("'");
                r.append(arg.as_str());
                r.append("' must be one value.");
            },
            ErrArg::Required { arg } => {
                r.append("'");
                r.append(arg.as_str());
                r.append("' is required.");
            },
            ErrArg::AtLeastOne { arg } => {
                r.append("'");
                r.append(arg.as_str());
                r.append("' requires at least one value.");
            },
        }
        r
    }
}

/// `new` is `old` after consuming the first group whose key is `name`: that group is
/// marked used and nothing else changes; with no such group nothing changes.
pub open spec fn consumed(old: Seq<Key>, new: Seq<Key>, name: Seq<char>) -> bool {
    match find_key(old, name) {
        None => new == old,
        Some(j) => {
            &&& new.len() == old.len()
            &&& new[j].used
            &&& new[j].k == old[j].k
            &&& new[j].v == old[j].v
            &&& forall|i: int| 0 <= i < old.len() && i != j ==> new[i] == old[i]
        },
    }
}

/// The group for `name` may still be consumed: it is absent or not used yet.
pub open spec fn consumable(keys: Seq<Key>, name: Seq<char>) -> bool {
    find_key(keys, name) matches Some(j) ==> !keys[j].used
}

/// The error for a value of option `k` that failed to parse.
fn value_error(k: &str, e: ErrVal) -> (r: ErrArg)
    ensures
        r == (ErrArg::Val { arg: r->Val_arg, e }),
        r->Val_arg@ == k@,
{
    ErrArg::Val { arg: k.to_owned(), e }
}

/// Reads an option from the groups of a command line, falling back on its default.
pub trait Parse2<'a, 'b, C>: Sized {
    type I: Show;

    fn parse2(i: Init<C, Self::I>, k: &'static str, c: &C, p: &mut ParsedArgs<'b>) -> (r: Result<
        Self,
        ErrArg,
    >)
        requires
            consumable(old(p).k@, k@),
        ensures
            consumed(old(p).k@, final(p).k@, k@),
    ;

    fn desc2(i: Init<C, Self::I>, d: &'static str, k: &'static str, c: &C) -> [String; 4];

    fn default2(c: &C, i: Init<C, Self::I>) -> Self;
}

/// The usage row of an option: its key, its kind, its description, and its default.
/// The kind is `kind<..>`, around the name that type `T` describes itself by.
pub open spec fn usage_row<'a, T: Parse<'a>>(r: [String; 4], k: Seq<char>, kind: Seq<char>, d: Seq<char>) -> bool {
    &&& r@[0]@ == k
    &&& exists|desc: Seq<char>| #[trigger] T::described_as(desc) && r@[1]@ == kind + "<"@ + desc + ">"@
    &&& r@[2]@ == d
}

/// `kind<desc>`, such as `Req<i32>`.
fn kind_text(kind: &str, desc: &str) -> (r: String)
    ensures
        r@ == kind@ + "<"@ + desc@ + ">"@,
{
    let mut r = kind.to_owned();
    r.append("<");
    r.append(desc);
    r.append(">");
    r
}

impl<'a, 'b, C, T: Parse<'a> + Default> Parse2<'b, 'a, C> for T {
    type I = T;

    /// A required option: exactly one value, or else its default.
    fn parse2(i: Init<C, Self::I>, k: &'static str, c: &C, p: &mut ParsedArgs<'a>) -> (r: Result<
        Self,
        ErrArg,
    >)
        ensures
            match find_key(old(p).k@, k@) {
                None => match i {
                    Init::Unset => r matches Err(ErrArg::Required { arg }) && arg@ == k@,
                    Init::Const(v) => r == Ok::<T, ErrArg>(v),
                    Init::Dyn(f) => r matches Ok(v) && f.gives(*c, v),
                },
                Some(j) => if old(p).k@[j].v@.len() != 1 {
                    r matches Err(ErrArg::OnlyOne { arg }) && arg@ == k@
                } else {
                    match r {
                        Ok(v) => T::reads(old(p).k@[j].v@[0]@, Ok(v)),
                        Err(e) => e matches ErrArg::Val { arg, e: ev } && arg@ == k@ && T::reads(
                            old(p).k@[j].v@[0]@,
                            Err(ev),
                        ),
                    }
                },
            },
    {
        match p.consume(k) {
            Some(args) => {
                if args.len() != 1 {
                    Err(ErrArg::OnlyOne { arg: k.to_owned() })
                } else {
                    match T::parse(args[0]) {
                        Ok(v) => Ok(v),
                        Err(e) => Err(value_error(k, e)),
                    }
                }
            },
            None => match i.get(c) {
                Some(v) => Ok(v),
                None => Err(ErrArg::Required { arg: k.to_owned() }),
            },
        }
    }

    fn desc2(i: Init<C, Self::I>, d: &'static str, k: &'static str, c: &C) -> (r: [String; 4])
        ensures
            usage_row::<T>(r, k@, "Req"@, d@),
            notes_default(i, *c, r@[3]@),
    {
        [k.to_owned(), kind_text("Req", T::desc()), d.to_owned(), i.to_string(c)]
    }

    fn default2(c: &C, i: Init<C, Self::I>) -> (r: Self)
        ensures
            i matches Init::Const(v) ==> r == v,
            i matches Init::Dyn(f) ==> f.gives(*c, r),
            i is Unset ==> call_ensures(T::default, (), r),
    {
        match i.get(c) {
            Some(v) => v,
            None => T::default(),
        }
    }
}

impl<'a, 'b, C, T: Parse<'a>> Parse2<'b, 'a, C> for Option<T> {
    type I = T;

    /// An optional option: exactly one value when given, else its default, if any.
    fn parse2(i: Init<C, Self::I>, k: &'static str, c: &C, p: &mut ParsedArgs<'a>) -> (r: Result<
        Self,
        ErrArg,
    >)
        ensures
            match find_key(old(p).k@, k@) {
                None => match i {
                    Init::Unset => r == Ok::<Option<T>, ErrArg>(None),
                    Init::Const(v) => r == Ok::<Option<T>, ErrArg>(Some(v)),
                    Init::Dyn(f) => r matches Ok(Some(v)) && f.gives(*c, v),
                },
                Some(j) => if old(p).k@[j].v@.len() != 1 {
                    r matches Err(ErrArg::OnlyOne { arg }) && arg@ == k@
                } else {
                    match r {
                        Ok(o) => o matches Some(v) && T::reads(old(p).k@[j].v@[0]@, Ok(v)),
                        Err(e) => e matches ErrArg::Val { arg, e: ev } && arg@ == k@ && T::reads(
                            old(p).k@[j].v@[0]@,
                            Err(ev),
                        ),
                    }
                },
            },
    {
        match p.consume(k) {
            Some(args) => {
                if args.len() != 1 {
                    Err(ErrArg::OnlyOne { arg: k.to_owned() })
                } else {
                    match T::parse(args[0]) {
                        Ok(v) => Ok(Some(v)),
                        Err(e) => Err(value_error(k, e)),
                    }
                }
            },
            None => Ok(i.get(c)),
        }
    }

    fn desc2(i: Init<C, Self::I>, d: &'static str, k: &'static str, c: &C) -> (r: [String; 4])
        ensures
            usage_row::<T>(r, k@, "Opt"@, d@),
            notes_default(i, *c, r@[3]@),
    {
        [k.to_owned(), kind_text("Opt", T::desc()), d.to_owned(), i.to_string(c)]
    }

    fn default2(c: &C, i: Init<C, Self::I>) -> (r: Self)
        ensures
            match i {
                Init::Unset => r is None,
                Init::Const(v) => r == Some(v),
                Init::Dyn(f) => r matches Some(v) && f.gives(*c, v),
            },
    {
        i.get(c)
    }
}

/// Parses every value of an option in order, stopping at the first that fails.
fn parse_all<'a, T: Parse<'a>>(k: &'static str, args: &Vec<&'a str>) -> (r: Result<Vec<T>, ErrArg>)
    ensures
        r matches Ok(v) ==> all_read::<T>(strs_view(args@), v@),
        args@.len() == 0 ==> r is Ok,
        r matches Err(e) ==> e matches ErrArg::Val { arg, e: ev } && arg@ == k@ && first_failure::<T>(
            strs_view(args@),
            ev,
        ),
{
    let mut out: Vec<T> = Vec::new();
    let mut n: usize = 0;
    while n < args.len()
        invariant
            n <= args@.len(),
            all_read::<T>(strs_view(args@).take(n as int), out@),
        decreases args.len() - n,
    {
        let ghost before = out@;
        match T::parse(args[n]) {
            Ok(v) => out.push(v),
            Err(e) => {
                proof {
                    assert(strs_view(args@)[n as int] == args@[n as int]@);
                    assert forall|j: int| 0 <= j < n implies #[trigger] readable::<T>(
                        strs_view(args@)[j],
                    ) by {
                        assert(strs_view(args@).take(n as int)[j] == strs_view(args@)[j]);
                        assert(T::reads(strs_view(args@)[j], Ok(before[j])));
                    }
                    assert(T::reads(strs_view(args@)[n as int], Err(e)));
                }
                return Err(value_error(k, e));
            },
        }
        assert forall|j: int| 0 <= j < n + 1 implies #[trigger] T::reads(
            strs_view(args@).take(n + 1)[j],
            Ok(out@[j]),
        ) by {
            if j < n {
                assert(strs_view(args@).take(n + 1)[j] == strs_view(args@).take(n as int)[j]);
            }
        }
        n += 1;
    }
    assert(strs_view(args@).take(args@.len() as int) =~= strs_view(args@));
    Ok(out)
}

/// Each value was read from the token at its place.
pub open spec fn all_read<'a, T: Parse<'a>>(toks: Seq<Seq<char>>, vals: Seq<T>) -> bool {
    &&& vals.len() == toks.len()
    &&& forall|j: int| 0 <= j < toks.len() ==> #[trigger] T::reads(toks[j], Ok(vals[j]))
}

/// Some value can be read from the token.
pub open spec fn readable<'a, T: Parse<'a>>(tok: Seq<char>) -> bool {
    exists|v: T| #[trigger] T::reads(tok, Ok(v))
}

/// `e` is what reading some token gave, and every token before it read as a value.
pub open spec fn first_failure<'a, T: Parse<'a>>(toks: Seq<Seq<char>>, e: ErrVal) -> bool {
    exists|n: int|
        0 <= n < toks.len() && #[trigger] T::reads(toks[n], Err(e)) && forall|j: int|
            0 <= j < n ==> #[trigger] readable::<T>(toks[j])
}

impl<'a, 'b, C, T: Parse<'a>> Parse2<'b, 'a, C> for Vec<T> {
    type I = DisplayVec<T>;

    /// A list option: one or more values when given, else its default or nothing.
    fn parse2(i: Init<C, Self::I>, k: &'static str, c: &C, p: &mut ParsedArgs<'a>) -> (r: Result<
        Self,
        ErrArg,
    >)
        ensures
            match find_key(old(p).k@, k@) {
                None => match i {
                    Init::Unset => r matches Ok(v) && v@.len() == 0,
                    Init::Const(v) => r matches Ok(x) && x@ == v.items(),
                    Init::Dyn(f) => r matches Ok(x) && f.gives(*c, DisplayVec(x)),
                },
                Some(j) => if old(p).k@[j].v@.len() == 0 {
                    r matches Err(ErrArg::OnlyOne { arg }) && arg@ == k@
                } else {
                    match r {
                        Ok(v) => all_read::<T>(strs_view(old(p).k@[j].v@), v@),
                        Err(e) => e matches ErrArg::Val { arg, e: ev } && arg@ == k@
                            && first_failure::<T>(strs_view(old(p).k@[j].v@), ev),
                    }
                },
            },
    {
        match p.consume(k) {
            Some(args) => {
                let v = match parse_all(k, args) {
                    Ok(v) => v,
                    Err(e) => {
                        return Err(e);
                    },
                };
                if v.len() == 0 {
                    return Err(ErrArg::OnlyOne { arg: k.to_owned() });
                }
                Ok(v)
            },
            None => match i.get(c) {
                Some(e) => Ok(e.0),
                None => Ok(Vec::new()),
            },
        }
    }

    fn desc2(i: Init<C, Self::I>, d: &'static str, k: &'static str, c: &C) -> (r: [String; 4])
        ensures
            usage_row::<T>(r, k@, "Vec"@, d@),
            notes_default(i, *c, r@[3]@),
    {
        [k.to_owned(), kind_text("Vec", T::desc()), d.to_owned(), i.to_string(c)]
    }

    fn default2(c: &C, i: Init<C, Self::I>) -> (r: Self)
        ensures
            i is Unset ==> r@.len() == 0,
            i matches Init::Const(v) ==> r@ == v.items(),
            i matches Init::Dyn(f) ==> f.gives(*c, DisplayVec(r)),
    {
        match i.get(c) {
            Some(v) => v.0,
            None => Vec::new(),
        }
    }
}

/// A list option that may also be given with no value at all.
pub struct OptVec<T>(pub Vec<T>);

impl<T> From<Vec<T>> for OptVec<T> {
    fn from(v: Vec<T>) -> (r: Self) {
        OptVec(v)
    }
}

impl<T> vstd::std_specs::convert::FromSpecImpl<Vec<T>> for OptVec<T> {
    open spec fn obeys_from_spec() -> bool {
        true
    }

    open spec fn from_spec(v: Vec<T>) -> Self {
        OptVec(v)
    }
}

impl<T> From<DisplayVec<T>> for OptVec<T> {
    fn from(v: DisplayVec<T>) -> (r: Self) {
        OptVec(v.0)
    }
}

impl<T> vstd::std_specs::convert::FromSpecImpl<DisplayVec<T>> for OptVec<T> {
    open spec fn obeys_from_spec() -> bool {
        true
    }

    open spec fn from_spec(v: DisplayVec<T>) -> Self {
        OptVec(v.0)
    }
}

impl<'a, 'b, C, T: Parse<'a>> Parse2<'b, 'a, C> for OptVec<T> {
    type I = DisplayVec<T>;

    /// A list option: its values when given, possibly none, else its default or nothing.
    fn parse2(i: Init<C, Self::I>, k: &'static str, c: &C, p: &mut ParsedArgs<'a>) -> (r: Result<
        Self,
        ErrArg,
    >)
        ensures
            match find_key(old(p).k@, k@) {
                None => match i {
                    Init::Unset => r matches Ok(v) && v.0@.len() == 0,
                    Init::Const(v) => r matches Ok(x) && x.0@ == v.items(),
                    Init::Dyn(f) => r matches Ok(x) && f.gives(*c, DisplayVec(x.0)),
                },
                Some(j) => match r {
                    Ok(v) => all_read::<T>(strs_view(old(p).k@[j].v@), v.0@),
                    Err(e) => e matches ErrArg::Val { arg, e: ev } && arg@ == k@ && first_failure::<
                        T,
                    >(strs_view(old(p).k@[j].v@), ev),
                },
            },
    {
        match p.consume(k) {
            Some(args) => {
                match parse_all(k, args) {
                    Ok(v) => Ok(OptVec(v)),
                    Err(e) => Err(e),
                }
            },
            None => match i.get(c) {
                Some(e) => Ok(OptVec(e.0)),
                None => Ok(OptVec(Vec::new())),
            },
        }
    }

    fn desc2(i: Init<C, Self::I>, d: &'static str, k: &'static str, c: &C) -> (r: [String; 4])
        ensures
            usage_row::<T>(r, k@, "Vec"@, d@),
            notes_default(i, *c, r@[3]@),
    {
        [k.to_owned(), kind_text("Vec", T::desc()), d.to_owned(), i.to_string(c)]
    }

    fn default2(c: &C, i: Init<C, Self::I>) -> (r: Self)
        ensures
            i is Unset ==> r.0@.len() == 0,
            i matches Init::Const(v) ==> r.0@ == v.items(),
            i matches Init::Dyn(f) ==> f.gives(*c, DisplayVec(r.0)),
    {
        match i.get(c) {
            Some(v) => OptVec(v.0),
            None => OptVec(Vec::new()),
        }
    }
}

/// A group that has been consumed cannot be consumed again: the first group with that key
/// is now marked used.
pub proof fn lemma_consumed_once(old: Seq<Key>, new: Seq<Key>, name: Seq<char>)
    requires
        consumed(old, new, name),
        find_key(old, name) is Some,
    ensures
        !consumable(new, name),
{
    let j = find_key(old, name)->0;
    assert(is_first_key(old, name, j));
    assert(forall|i: int| 0 <= i < old.len() ==> key_name(#[trigger] new[i]) == key_name(old[i]));
    assert(is_first_key(new, name, j));
    assert(find_key(new, name) == Some(j)) by {
        let f = choose|f: int| is_first_key(new, name, f);
        if f < j {
            assert(key_name(old[f]) != Some(name));
        }
        if f > j {
            assert(key_name(new[j]) != Some(name));
        }
    }
}

/// Each element of a group comes from a pair with that key.
proof fn lemma_group_by_source(pairs: Seq<(Option<Seq<char>>, Seq<char>)>, key: Option<Seq<char>>, e: int)
    requires
        0 <= e < group_by(pairs, key).len(),
    ensures
        exists|i: int| 0 <= i < pairs.len() && pairs[i] == (key, group_by(pairs, key)[e]),
    decreases pairs.len(),
{
    let d = pairs.drop_last();
    if pairs.last().0 == key && e == group_by(pairs, key).len() - 1 {
        assert(pairs[pairs.len() - 1] == (key, group_by(pairs, key)[e]));
    } else {
        lemma_group_by_source(d, key, e);
        let i = choose|i: int| 0 <= i < d.len() && d[i] == (key, group_by(d, key)[e]);
        assert(pairs[i] == d[i]);
    }
}

/// The only key token a group's values can hold is the group's own key, repeated: a value
/// never belongs to another option.
pub proof fn lemma_values_hold_no_other_key(p: Seq<Key>, args: Seq<Seq<char>>, j: int, x: int)
    requires
        groups_args(p, args),
        0 <= j < p.len(),
        0 <= x < p[j].v@.len(),
        is_key_token(p[j].v@[x]@),
    ensures
        key_name(p[j]) == Some(p[j].v@[x]@),
{
    let key = key_name(p[j]);
    let g = group_by(tagged(args), key);
    assert(strs_view(p[j].v@) == key_values(args, key));
    let e = if key is Some { x + 1 } else { x };
    assert(strs_view(p[j].v@)[x] == p[j].v@[x]@);
    assert(g[e] == p[j].v@[x]@);
    lemma_group_by_source(tagged(args), key, e);
    let i = choose|i: int| 0 <= i < tagged(args).len() && tagged(args)[i] == (key, g[e]);
    assert(args.take(i + 1).last() == args[i]);
}

/// If some index is the first group keyed `name`, the search for `name` finds a group.
proof fn lemma_first_key_exists(p: Seq<Key>, name: Seq<char>, j: int)
    requires
        0 <= j < p.len(),
        key_name(p[j]) == Some(name),
    ensures
        find_key(p, name) is Some,
    decreases j,
{
    if forall|i: int| 0 <= i < j ==> key_name(#[trigger] p[i]) != Some(name) {
        assert(is_first_key(p, name, j));
    } else {
        let i = choose|i: int| 0 <= i < j && key_name(#[trigger] p[i]) == Some(name);
        lemma_first_key_exists(p, name, i);
    }
}

/// The last key token of a command line is one of its tokens.
proof fn lemma_last_key_source(args: Seq<Seq<char>>)
    ensures
        last_key(args) matches Some(x) ==> exists|i: int| 0 <= i < args.len() && args[i] == x,
    decreases args.len(),
{
    if args.len() > 0 && !is_key_token(args.last()) {
        lemma_last_key_source(args.drop_last());
        if last_key(args) is Some {
            let x = last_key(args)->0;
            let i = choose|i: int| 0 <= i < args.drop_last().len() && args.drop_last()[i] == x;
            assert(args[i] == x);
        }
    } else if args.len() > 0 {
        assert(args[args.len() - 1] == args.last());
    }
}

/// An option key is found among the groups of a command line exactly when its token occurs
/// on the command line.
pub proof fn lemma_key_found(p: Seq<Key>, args: Seq<Seq<char>>, name: Seq<char>)
    requires
        groups_args(p, args),
        is_key_token(name),
    ensures
        find_key(p, name) is Some <==> exists|i: int| 0 <= i < args.len() && args[i] == name,
{
    if exists|i: int| 0 <= i < args.len() && args[i] == name {
        let i = choose|i: int| 0 <= i < args.len() && args[i] == name;
        assert(args.take(i + 1).last() == args[i]);
        assert(tagged(args)[i].0 == Some(name));
        let j = choose|j: int| 0 <= j < p.len() && key_name(#[trigger] p[j]) == tagged(args)[i].0;
        lemma_first_key_exists(p, name, j);
    }
    if find_key(p, name) is Some {
        let j = choose|j: int| is_first_key(p, name, j);
        assert(key_name(p[j]) == Some(name));
        let g = group_by(tagged(args), Some(name));
        assert(g.len() > 0);
        lemma_group_by_source(tagged(args), Some(name), 0);
        let t = choose|t: int| 0 <= t < tagged(args).len() && tagged(args)[t] == (Some(name), g[0]);
        let pre = args.take(t + 1);
        lemma_last_key_source(pre);
        assert(last_key(pre) == Some(name));
        let i = choose|i: int| 0 <= i < pre.len() && #[trigger] pre[i] == name;
        assert(args[i] == name);
    }
}

/// The number of tokens that a split command line accounts for: each group's values, and
/// its key token when it has a key.
pub open spec fn token_count(p: Seq<Key>) -> int
    decreases p.len(),
{
    if p.len() == 0 {
        0
    } else {
        token_count(p.drop_last()) + p.last().v@.len() + if p.last().k is Some { 1int } else { 0 }
    }
}

/// The sizes of the groups of `keys`, added up.
spec fn group_total(pairs: Seq<(Option<Seq<char>>, Seq<char>)>, keys: Seq<Option<Seq<char>>>) -> int
    decreases keys.len(),
{
    if keys.len() == 0 {
        0
    } else {
        group_total(pairs, keys.drop_last()) + group_by(pairs, keys.last()).len()
    }
}

/// How often `k` occurs in `keys`.
spec fn occurrences(keys: Seq<Option<Seq<char>>>, k: Option<Seq<char>>) -> int
    decreases keys.len(),
{
    if keys.len() == 0 {
        0
    } else {
        occurrences(keys.drop_last(), k) + if keys.last() == k { 1int } else { 0 }
    }
}

proof fn lemma_group_total_step(pairs: Seq<(Option<Seq<char>>, Seq<char>)>, keys: Seq<Option<Seq<char>>>)
    requires
        pairs.len() > 0,
    ensures
        group_total(pairs, keys) == group_total(pairs.drop_last(), keys) + occurrences(
            keys,
            pairs.last().0,
        ),
    decreases keys.len(),
{
    if keys.len() > 0 {
        lemma_group_total_step(pairs, keys.drop_last());
    }
}

proof fn lemma_occurrences_distinct(keys: Seq<Option<Seq<char>>>, k: Option<Seq<char>>)
    requires
        forall|a: int, b: int| 0 <= a < b < keys.len() ==> keys[a] != keys[b],
    ensures
        keys.contains(k) ==> occurrences(keys, k) == 1,
        !keys.contains(k) ==> occurrences(keys, k) == 0,
    decreases keys.len(),
{
    if keys.len() > 0 {
        let d = keys.drop_last();
        lemma_occurrences_distinct(d, k);
        if keys.last() == k {
            assert(!d.contains(k)) by {
                if d.contains(k) {
                    let a = choose|a: int| 0 <= a < d.len() && d[a] == k;
                    assert(keys[a] == keys[keys.len() - 1]);
                }
            }
        } else {
            if keys.contains(k) {
                let a = choose|a: int| 0 <= a < keys.len() && keys[a] == k;
                assert(d[a] == k);
            }
            if d.contains(k) {
                let a = choose|a: int| 0 <= a < d.len() && d[a] == k;
                assert(keys[a] == k);
            }
        }
    }
}

proof fn lemma_group_total(pairs: Seq<(Option<Seq<char>>, Seq<char>)>, keys: Seq<Option<Seq<char>>>)
    requires
        forall|a: int, b: int| 0 <= a < b < keys.len() ==> keys[a] != keys[b],
        forall|i: int| 0 <= i < pairs.len() ==> keys.contains(#[trigger] pairs[i].0),
    ensures
        group_total(pairs, keys) == pairs.len(),
    decreases pairs.len(),
{
    if pairs.len() == 0 {
        lemma_group_total_empty(pairs, keys);
    } else {
        let d = pairs.drop_last();
        assert forall|i: int| 0 <= i < d.len() implies keys.contains(#[trigger] d[i].0) by {
            assert(d[i] == pairs[i]);
        }
        lemma_group_total(d, keys);
        lemma_group_total_step(pairs, keys);
        assert(keys.contains(pairs[pairs.len() - 1].0));
        lemma_occurrences_distinct(keys, pairs.last().0);
    }
}

proof fn lemma_group_total_empty(pairs: Seq<(Option<Seq<char>>, Seq<char>)>, keys: Seq<Option<Seq<char>>>)
    requires
        pairs.len() == 0,
    ensures
        group_total(pairs, keys) == 0,
    decreases keys.len(),
{
    if keys.len() > 0 {
        lemma_group_total_empty(pairs, keys.drop_last());
    }
}

proof fn lemma_token_count_total(p: Seq<Key>, args: Seq<Seq<char>>)
    requires
        forall|j: int|
            0 <= j < p.len() ==> strs_view((#[trigger] p[j]).v@) == key_values(args, key_name(p[j]))
                && group_by(tagged(args), key_name(p[j])).len() > 0,
    ensures
        token_count(p) == group_total(tagged(args), p.map_values(|k: Key| key_name(k))),
    decreases p.len(),
{
    if p.len() > 0 {
        let d = p.drop_last();
        assert forall|j: int|
            0 <= j < d.len() implies strs_view((#[trigger] d[j]).v@) == key_values(args, key_name(d[j]))
                && group_by(tagged(args), key_name(d[j])).len() > 0 by {
            assert(d[j] == p[j]);
        }
        lemma_token_count_total(d, args);
        assert(p.map_values(|k: Key| key_name(k)).drop_last() =~= d.map_values(|k: Key| key_name(k)));
        let last = p[p.len() - 1];
        assert(strs_view(last.v@).len() == last.v@.len());
    }
}

/// Splitting a command line loses and duplicates no token: the groups' values and key
/// tokens add up to the number of tokens.
pub proof fn lemma_split_keeps_every_token(p: Seq<Key>, args: Seq<Seq<char>>)
    requires
        groups_args(p, args),
    ensures
        token_count(p) == args.len(),
{
    lemma_token_count_total(p, args);
    let keys = p.map_values(|k: Key| key_name(k));
    assert forall|a: int, b: int| 0 <= a < b < keys.len() implies keys[a] != keys[b] by {
        assert(key_name(p[a]) != key_name(p[b]));
    }
    assert forall|i: int| 0 <= i < tagged(args).len() implies keys.contains(
        #[trigger] tagged(args)[i].0,
    ) by {
        let j = choose|j: int| 0 <= j < p.len() && key_name(#[trigger] p[j]) == tagged(args)[i].0;
        assert(keys[j] == tagged(args)[i].0);
    }
    lemma_group_total(tagged(args), keys);
}

} // verus!
