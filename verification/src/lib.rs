//! Building blocks for command-line programs: a command line is split into groups by
//! option keys, options are parsed into typed values with static or dynamic defaults, and
//! usage tables are laid out for help output.
use vstd::prelude::*;

pub mod fuzzy;
pub mod internal;
pub mod parse;
pub mod sh;
pub mod table;
pub mod text;
pub mod values;

pub use parse::{
    consumable, consumed, find_key, key_name, DynInit, ErrArg, Init, Key, OptVec, Parse2, ParsedArgs, PFX,
};
pub use table::{to_lines, to_table, Cell};

use crate::table::table_text;

use crate::parse::{groups_args, is_key_token, key_prefix, lemma_key_found};
use crate::text::{
    chars_of, chars_start_with, join_strings, join_strs, seq_join, seq_starts_with, str_eq,
    strings_view, strs_view,
};

verus! {

/// A token of the command line.
pub type Arg<'a> = &'a str;

/// Renders a value as text, as it is shown in help output.
pub trait Show {
    /// `t` is a text that this value may be shown as. A type that states nothing allows every
    /// text.
    open spec fn shows(&self, t: Seq<char>) -> bool {
        true
    }

    fn show(&self) -> (r: String)
        ensures
            self.shows(r@),
    ;
}

/// Failure to parse one value.
pub enum ErrVal {
    Value { input: String, typename: String, error: String },
}

impl ErrVal {
    /// The message of this error.
    pub open spec fn text(&self) -> Seq<char> {
        match self {
            ErrVal::Value { input, typename, error } => "Failed to parse '"@ + input@
                + "' as type '"@ + typename@ + "': "@ + error@,
        }
    }

    /// The message of this error.
    pub fn to_string(&self) -> (r: String)
        ensures
            r@ == self.text(),
    {
        match self {
            ErrVal::Value { input, typename, error } => {
                let mut r = String::new();
                r.append("Failed to parse '");
                r.append(input.as_str());
                r.append("' as type '");
                r.append(typename.as_str());
                r.append("': ");
                r.append(error.as_str());
                r
            },
        }
    }
}

/// A value that failed to parse, with the type it was read as.
pub struct ParseErr<'a> {
    pub ty: &'static str,
    pub i: Arg<'a>,
    pub e: String,
}

/// A type whose values can be read from one command-line token.
pub trait Parse<'a>: Sized + Show {
    /// What reading token `i` may give: `r` is a possible outcome. A type that states
    /// nothing allows every outcome.
    open spec fn reads(i: Seq<char>, r: Result<Self, ErrVal>) -> bool {
        true
    }

    fn parse(i: Arg<'a>) -> (r: Result<Self, ErrVal>)
        ensures
            Self::reads(i@, r),
    ;

    /// `t` is a name that the type may describe itself by. A type that states nothing
    /// allows every name.
    open spec fn described_as(t: Seq<char>) -> bool {
        true
    }

    fn desc() -> (r: &'static str)
        ensures
            Self::described_as(r@),
    ;
}

/// A list of values that is shown with its items separated by commas.
pub struct DisplayVec<T>(pub Vec<T>);

impl<T> DisplayVec<T> {
    /// The items.
    pub open spec fn items(&self) -> Seq<T> {
        self.0@
    }
}

impl<T> From<Vec<T>> for DisplayVec<T> {
    fn from(v: Vec<T>) -> (r: Self) {
        DisplayVec(v)
    }
}

impl<T> vstd::std_specs::convert::FromSpecImpl<Vec<T>> for DisplayVec<T> {
    open spec fn obeys_from_spec() -> bool {
        true
    }

    open spec fn from_spec(v: Vec<T>) -> Self {
        DisplayVec(v)
    }
}

impl<T> From<DisplayVec<T>> for Vec<T> {
    fn from(v: DisplayVec<T>) -> (r: Self) {
        v.0
    }
}

impl<T> vstd::std_specs::convert::FromSpecImpl<DisplayVec<T>> for Vec<T> {
    open spec fn obeys_from_spec() -> bool {
        true
    }

    open spec fn from_spec(v: DisplayVec<T>) -> Self {
        v.0
    }
}

/// Wrapping a list for display and unwrapping it again gives the list back, and the other
/// way round.
pub proof fn lemma_display_vec_round_trip<T>(v: Vec<T>, d: DisplayVec<T>)
    ensures
        <Vec<T> as vstd::std_specs::convert::FromSpec<DisplayVec<T>>>::from_spec(
            <DisplayVec<T> as vstd::std_specs::convert::FromSpec<Vec<T>>>::from_spec(v),
        ) == v,
        <DisplayVec<T> as vstd::std_specs::convert::FromSpec<Vec<T>>>::from_spec(
            <Vec<T> as vstd::std_specs::convert::FromSpec<DisplayVec<T>>>::from_spec(d),
        ) == d,
{
}

/// `t` is the items shown one by one, separated by `, `.
pub open spec fn shows_items<T: Show>(items: Seq<T>, t: Seq<char>) -> bool {
    exists|ts: Seq<Seq<char>>|
        ts.len() == items.len() && (forall|k: int|
            0 <= k < items.len() ==> #[trigger] items[k].shows(ts[k])) && t == seq_join(
            ts,
            ", "@,
        )
}

impl<T: Show> Show for Vec<T> {
    /// The items, each shown, separated by `, `.
    open spec fn shows(&self, t: Seq<char>) -> bool {
        shows_items(self@, t)
    }

    fn show(&self) -> (r: String) {
        let mut parts: Vec<String> = Vec::new();
        let mut i: usize = 0;
        while i < self.len()
            invariant
                i <= self@.len(),
                parts@.len() == i,
                forall|k: int| 0 <= k < i ==> #[trigger] self@[k].shows(parts@[k]@),
            decreases self.len() - i,
        {
            parts.push(self[i].show());
            i += 1;
        }
        let r = join_strings(&parts, ", ");
        assert(forall|k: int| 0 <= k < self@.len() ==> #[trigger] self@[k].shows(
            strings_view(parts@)[k],
        ));
        r
    }
}

impl<T: Show> Show for DisplayVec<T> {
    /// The items, each shown, separated by `, `.
    open spec fn shows(&self, t: Seq<char>) -> bool {
        shows_items(self.0@, t)
    }

    fn show(&self) -> (r: String) {
        self.0.show()
    }
}

/// Failure to read the options of a command.
#[allow(inconsistent_fields)]
pub enum ErrArgs {
    Help,
    Unknown { arg: Vec<String> },
    Arg { arg: String, e: ErrArg },
    Run { e: String },
}

impl ErrArgs {
    /// The message of this error.
    pub open spec fn text(&self) -> Seq<char> {
        match self {
            ErrArgs::Help => "Needs help"@,
            ErrArgs::Unknown { arg } => "Unknown args '"@ + seq_join(strings_view(arg@), ", "@)
                + "'"@,
            ErrArgs::Arg { arg, e } => "Failed while parsing arg '"@ + arg@ + "': '"@ + e.text()
                + "'"@,
            ErrArgs::Run { e } => e@,
        }
    }

    /// The message of this error.
    pub fn to_string(&self) -> (r: String)
        ensures
            r@ == self.text(),
    {
        match self {
            ErrArgs::Help => "Needs help".to_owned(),
            ErrArgs::Unknown { arg } => {
                let mut r = String::new();
                r.append("Unknown args '");
                let j = join_strings(arg, ", ");
                r.append(j.as_str());
                r.append("'");
                r
            },
            ErrArgs::Arg { arg, e } => {
                let mut r = String::new();
                r.append("Failed while parsing arg '");
                r.append(arg.as_str());
                r.append("': '");
                let t = e.to_string();
                r.append(t.as_str());
                r.append("'");
                r
            },
            ErrArgs::Run { e } => e.clone(),
        }
    }
}

/// Failure to pick and run an action.
pub enum ErrActs {
    Help,
    Unknown { act: String },
    Missing,
    Args { e: ErrArgs },
}

impl ErrActs {
    /// The message of this error.
    pub open spec fn text(&self) -> Seq<char> {
        match self {
            ErrActs::Help => "Needs help"@,
            ErrActs::Unknown { act } => "Unknown act '"@ + act@ + "'"@,
            ErrActs::Missing => "Expected an act."@,
            ErrActs::Args { e } => e.text(),
        }
    }

    /// The message of this error.
    pub fn to_string(&self) -> (r: String)
        ensures
            r@ == self.text(),
    {
        match self {
            ErrActs::Help => "Needs help".to_owned(),
            ErrActs::Unknown { act } => {
                let mut r = String::new();
                r.append("Unknown act '");
                r.append(act.as_str());
                r.append("'");
                r
            },
            ErrActs::Missing => "Expected an act.".to_owned(),
            ErrActs::Args { e } => e.to_string(),
        }
    }
}

impl From<ErrArgs> for ErrActs {
    fn from(e: ErrArgs) -> (r: Self) {
        ErrActs::Args { e }
    }
}

impl vstd::std_specs::convert::FromSpecImpl<ErrArgs> for ErrActs {
    open spec fn obeys_from_spec() -> bool {
        true
    }

    open spec fn from_spec(e: ErrArgs) -> Self {
        ErrActs::Args { e }
    }
}

/// Where the parse of a command line stands: the program's name and the actions chosen so far.
pub struct ParseCtx<'a> {
    pub prog: Arg<'a>,
    pub pfx: Vec<Arg<'a>>,
}

/// A group whose values are positional: it has no key, or its key is the bare `--`.
pub open spec fn is_positional(k: Option<Seq<char>>) -> bool {
    k is None || k == Some(key_prefix())
}

/// The tokens of the groups that were not consumed and are not positional: each such
/// group's key followed by its values, the groups in order.
pub open spec fn unknown_tokens(p: Seq<Key>) -> Seq<Seq<char>>
    decreases p.len(),
{
    if p.len() == 0 {
        Seq::empty()
    } else {
        let k = p.last();
        let prev = unknown_tokens(p.drop_last());
        if !k.used && !is_positional(key_name(k)) {
            prev + seq![key_name(k)->0] + strs_view(k.v@)
        } else {
            prev
        }
    }
}

/// Every key that no option consumed and that is not the bare `--` is reported as unknown,
/// whether or not values follow it: it is among the unknown tokens, right before its values.
pub proof fn lemma_unused_key_is_unknown(p: Seq<Key>, j: int)
    requires
        0 <= j < p.len(),
        !p[j].used,
        p[j].k is Some,
        key_name(p[j]) != Some(key_prefix()),
    ensures
        unknown_tokens(p).len() > 0,
        exists|o: int|
            0 <= o && o + 1 + p[j].v@.len() <= unknown_tokens(p).len() && unknown_tokens(p)[o]
                == key_name(p[j])->0 && unknown_tokens(p).subrange(o + 1, o + 1 + p[j].v@.len())
                == strs_view(p[j].v@),
    decreases p.len(),
{
    let d = p.drop_last();
    if j == p.len() - 1 {
        let prev = unknown_tokens(d);
        let o = prev.len() as int;
        let u = unknown_tokens(p);
        assert(u == prev + seq![key_name(p[j])->0] + strs_view(p[j].v@));
        assert(u[o] == key_name(p[j])->0);
        assert(u.subrange(o + 1, o + 1 + p[j].v@.len()) =~= strs_view(p[j].v@));
    } else {
        assert(d[j] == p[j]);
        lemma_unused_key_is_unknown(d, j);
        let prev = unknown_tokens(d);
        let o = choose|o: int|
            0 <= o && o + 1 + d[j].v@.len() <= prev.len() && prev[o] == key_name(d[j])->0
                && prev.subrange(o + 1, o + 1 + d[j].v@.len()) == strs_view(d[j].v@);
        let u = unknown_tokens(p);
        assert(u.len() >= prev.len());
        assert(u.subrange(0, prev.len() as int) =~= prev);
        assert(u[o] == prev[o]);
        assert(u.subrange(o + 1, o + 1 + p[j].v@.len()) =~= prev.subrange(
            o + 1,
            o + 1 + d[j].v@.len(),
        ));
    }
}

/// The values of the positional groups, the groups in order.
pub open spec fn positional_tokens(p: Seq<Key>) -> Seq<Seq<char>>
    decreases p.len(),
{
    if p.len() == 0 {
        Seq::empty()
    } else {
        let k = p.last();
        let prev = positional_tokens(p.drop_last());
        if is_positional(key_name(k)) {
            prev + strs_view(k.v@)
        } else {
            prev
        }
    }
}

/// Whether a group's values are positional.
fn positional_key(k: &Key) -> (r: bool)
    ensures
        r == is_positional(key_name(*k)),
{
    proof {
        reveal_strlit("--");
    }
    assert(PFX@ =~= key_prefix());
    match k.k {
        None => true,
        Some(x) => str_eq(x, PFX),
    }
}

/// The tokens of the groups that are neither consumed nor positional.
pub fn unknown_args(p: &ParsedArgs) -> (r: Vec<String>)
    ensures
        strings_view(r@) == unknown_tokens(p.k@),
{
    let mut r: Vec<String> = Vec::new();
    let mut j: usize = 0;
    while j < p.k.len()
        invariant
            j <= p.k@.len(),
            strings_view(r@) == unknown_tokens(p.k@.take(j as int)),
        decreases p.k.len() - j,
    {
        let k = &p.k[j];
        assert(p.k@.take(j + 1).drop_last() =~= p.k@.take(j as int));
        assert(p.k@.take(j + 1).last() == *k);
        if !k.used && !positional_key(k) {
            let ghost before = strings_view(r@);
            match k.k {
                Some(x) => {
                    r.push(x.to_owned());
                },
                None => {},
            }
            assert(strings_view(r@) =~= before + seq![key_name(*k)->0] + strs_view(
                k.v@.take(0),
            ));
            let mut n: usize = 0;
            while n < k.v.len()
                invariant
                    n <= k.v@.len(),
                    k.k is Some,
                    strings_view(r@) =~= before + seq![key_name(*k)->0] + strs_view(
                        k.v@.take(n as int),
                    ),
                decreases k.v.len() - n,
            {
                let ghost r0 = r@;
                r.push(k.v[n].to_owned());
                assert(strings_view(r@) =~= strings_view(r0).push(k.v@[n as int]@));
                assert(strs_view(k.v@.take(n + 1)) =~= strs_view(k.v@.take(n as int)).push(
                    k.v@[n as int]@,
                ));
                n += 1;
            }
            assert(k.v@.take(k.v@.len() as int) =~= k.v@);
        }
        j += 1;
    }
    assert(p.k@.take(p.k@.len() as int) =~= p.k@);
    r
}

/// The values of the positional groups.
pub fn positional_args<'c>(p: &ParsedArgs<'c>) -> (r: Vec<&'c str>)
    ensures
        strs_view(r@) == positional_tokens(p.k@),
{
    let mut r: Vec<&'c str> = Vec::new();
    let mut j: usize = 0;
    while j < p.k.len()
        invariant
            j <= p.k@.len(),
            strs_view(r@) == positional_tokens(p.k@.take(j as int)),
        decreases p.k.len() - j,
    {
        let k = &p.k[j];
        assert(p.k@.take(j + 1).drop_last() =~= p.k@.take(j as int));
        assert(p.k@.take(j + 1).last() == *k);
        if positional_key(k) {
            let ghost before = strs_view(r@);
            let mut n: usize = 0;
            while n < k.v.len()
                invariant
                    n <= k.v@.len(),
                    strs_view(r@) =~= before + strs_view(k.v@.take(n as int)),
                decreases k.v.len() - n,
            {
                let ghost r0 = r@;
                r.push(k.v[n]);
                assert(strs_view(r@) =~= strs_view(r0).push(k.v@[n as int]@));
                assert(strs_view(k.v@.take(n + 1)) =~= strs_view(k.v@.take(n as int)).push(
                    k.v@[n as int]@,
                ));
                n += 1;
            }
            assert(k.v@.take(k.v@.len() as int) =~= k.v@);
        }
        j += 1;
    }
    assert(p.k@.take(p.k@.len() as int) =~= p.k@);
    r
}

/// The outcome of an option parse, judged against what is left of the command line: an
/// error stands; otherwise the parse fails when tokens are left that no option consumed
/// and that are not positional, and else yields the value with the positional values.
pub fn settle<'c, A>(parsed: Result<A, ErrArgs>, p: &ParsedArgs<'c>) -> (r: Result<
    (A, Vec<&'c str>),
    ErrArgs,
>)
    ensures
        match parsed {
            Err(e) => r == Err::<(A, Vec<&'c str>), ErrArgs>(e),
            Ok(a) => if unknown_tokens(p.k@).len() > 0 {
                r matches Err(ErrArgs::Unknown { arg }) && strings_view(arg@) == unknown_tokens(
                    p.k@,
                )
            } else {
                r matches Ok((b, pos)) && b == a && strs_view(pos@) == positional_tokens(p.k@)
            },
        },
{
    let a = match parsed {
        Ok(a) => a,
        Err(e) => {
            return Err(e);
        },
    };
    let u = unknown_args(p);
    if u.len() != 0 {
        return Err(ErrArgs::Unknown { arg: u });
    }
    Ok((a, positional_args(p)))
}

/// The error of a failed run.
pub fn run_outcome(r: Result<(), String>) -> (o: Result<(), ErrArgs>)
    ensures
        match r {
            Ok(()) => o is Ok,
            Err(e) => o == Err::<(), ErrArgs>(ErrArgs::Run { e }),
        },
{
    match r {
        Ok(()) => Ok(()),
        Err(e) => Err(ErrArgs::Run { e }),
    }
}

/// The token that asks for help.
pub open spec fn help_token() -> Seq<char> {
    seq!['-', '-', 'h', 'e', 'l', 'p']
}

/// What reading and running a command may give for command line `args`: help when a
/// `--help` token asks for it; otherwise the command line is split into groups, the options
/// are read from them (an outcome that `reads` allows), the outcome is judged as [`settle`]
/// does, and the command is run on the positional values (an outcome that `runs` allows), a
/// failed run reported as [`ErrArgs::Run`].
pub open spec fn args_next_gives<'a, A>(
    args: Seq<&'a str>,
    r: Result<(), ErrArgs>,
    reads: spec_fn(ParsedArgs<'a>, ParsedArgs<'a>, Result<A, ErrArgs>) -> bool,
    runs: spec_fn(A, Seq<Seq<char>>, Result<(), String>) -> bool,
) -> bool {
    if exists|i: int| 0 <= i < args.len() && (#[trigger] args[i])@ == help_token() {
        r matches Err(ErrArgs::Help)
    } else {
        exists|p0: ParsedArgs<'a>, p1: ParsedArgs<'a>, parsed: Result<A, ErrArgs>|
            groups_args(p0.k@, strs_view(args)) && #[trigger] reads(p0, p1, parsed) && match parsed {
                Err(e) => r == Err::<(), ErrArgs>(e),
                Ok(a) => if unknown_tokens(p1.k@).len() > 0 {
                    r matches Err(ErrArgs::Unknown { arg }) && strings_view(arg@) == unknown_tokens(
                        p1.k@,
                    )
                } else {
                    exists|out: Result<(), String>|
                        #[trigger] runs(a, positional_tokens(p1.k@), out) && match out {
                            Ok(()) => r is Ok,
                            Err(e) => r == Err::<(), ErrArgs>(ErrArgs::Run { e }),
                        }
                },
            }
    }
}

/// `t` is a command's help text for program `prog` and actions `pfx`: the command line's
/// shape and the table of rows that `adds` allows a command to list.
pub open spec fn args_help_text(
    prog: Seq<char>,
    pfx: Seq<Seq<char>>,
    t: Seq<char>,
    adds: spec_fn(Seq<[String; 4]>) -> bool,
) -> bool {
    exists|rows: Seq<[String; 4]>|
        #[trigger] adds(rows) && t == usage_text(
            prog,
            pfx,
            table_text(rows),
            has_positional(table_text(rows)),
        )
}

/// `r` answers the outcome `inner` of a command: success is `None`, a request for help is
/// answered by a help text, and any other error stands.
pub open spec fn args_answers(
    prog: Seq<char>,
    pfx: Seq<Seq<char>>,
    inner: Result<(), ErrArgs>,
    r: Result<Option<String>, ErrArgs>,
    adds: spec_fn(Seq<[String; 4]>) -> bool,
) -> bool {
    match inner {
        Ok(()) => r matches Ok(None),
        Err(ErrArgs::Help) => r matches Ok(Some(t)) && args_help_text(prog, pfx, t@, adds),
        Err(e) => r == Err::<Option<String>, ErrArgs>(e),
    }
}

/// `r` answers some outcome that reading and running a command may give for command line
/// `args`, as [`args_next_gives`] and [`args_answers`] describe them.
pub open spec fn args_next_answers<'a, A>(
    args: Seq<&'a str>,
    prog: Seq<char>,
    pfx: Seq<Seq<char>>,
    r: Result<Option<String>, ErrArgs>,
    reads: spec_fn(ParsedArgs<'a>, ParsedArgs<'a>, Result<A, ErrArgs>) -> bool,
    runs: spec_fn(A, Seq<Seq<char>>, Result<(), String>) -> bool,
    adds: spec_fn(Seq<[String; 4]>) -> bool,
) -> bool {
    exists|inner: Result<(), ErrArgs>|
        #[trigger] args_next_gives(args, inner, reads, runs) && args_answers(
            prog,
            pfx,
            inner,
            r,
            adds,
        )
}

/// A command's options, read from the groups of its command line.
pub trait Args<C>: Sized {
    /// `r` is an outcome that reading the options from groups `before` may have in context
    /// `c`, leaving the groups as `after`. A command that states nothing allows every outcome.
    open spec fn reads_options<'b>(
        c: C,
        before: ParsedArgs<'b>,
        after: ParsedArgs<'b>,
        r: Result<Self, ErrArgs>,
    ) -> bool {
        true
    }

    /// `out` is an outcome that running the command on positional values `pos` may have in
    /// context `c`. A command that states nothing allows every outcome.
    open spec fn runs(self, c: C, pos: Seq<Seq<char>>, out: Result<(), String>) -> bool {
        true
    }

    /// `after` is the list of usage rows `before` with the rows of this command's options
    /// added. A command that states nothing allows every list.
    open spec fn adds_usage(c: C, before: Seq<[String; 4]>, after: Seq<[String; 4]>) -> bool {
        true
    }

    fn new(c: &C, args: &mut ParsedArgs) -> (r: Result<Self, ErrArgs>)
        ensures
            Self::reads_options(*c, *old(args), *final(args), r),
    ;

    fn desc_act() -> &'static str;

    fn add_paths<'a>(pfx: &Vec<Arg<'a>>, p: &mut Vec<Vec<Arg<'a>>>);

    fn add_usage(c: &C, r: &mut Vec<[String; 4]>)
        ensures
            Self::adds_usage(*c, old(r)@, final(r)@),
    ;

    fn default(c: &C) -> Self;

    fn run(self, c: &C, r: Vec<&str>) -> (out: Result<(), String>)
        ensures
            self.runs(*c, strs_view(r@), out),
    ;

    /// Reads the options from `args` and runs the command. Help, asked for by a `--help`
    /// token, takes precedence over everything else; the options are then read by
    /// [`Args::new`], judged by [`settle`], and the command is run on the positional values.
    fn next_impl<'a>(c: &C, args: &[Arg<'a>]) -> (r: Result<(), ErrArgs>)
        ensures
            (exists|i: int| 0 <= i < args@.len() && (#[trigger] args@[i])@ == help_token()) ==> r
                is Err && r->Err_0 is Help,
            args_next_gives(
                args@,
                r,
                |p0: ParsedArgs<'a>, p1: ParsedArgs<'a>, x: Result<Self, ErrArgs>| Self::reads_options(*c, p0, p1, x),
                |v: Self, pos: Seq<Seq<char>>, out: Result<(), String>| v.runs(*c, pos, out),
            ),
    {
        let ghost rd = |p0: ParsedArgs<'a>, p1: ParsedArgs<'a>, x: Result<Self, ErrArgs>|
            Self::reads_options(*c, p0, p1, x);
        let ghost rn = |v: Self, pos: Seq<Seq<char>>, out: Result<(), String>| v.runs(*c, pos, out);
        let mut p = ParsedArgs::new(args);
        proof {
            reveal_strlit("--help");
            assert("--help"@ =~= help_token());
            assert(is_key_token(help_token())) by {
                assert(help_token().subrange(0, 2) =~= key_prefix());
            }
            lemma_key_found(p.k@, strs_view(args@), help_token());
        }
        let ghost has_help = exists|i: int|
            0 <= i < args@.len() && (#[trigger] args@[i])@ == help_token();
        proof {
            if has_help {
                let i = choose|i: int| 0 <= i < args@.len() && (#[trigger] args@[i])@ == help_token();
                assert(strs_view(args@)[i] == help_token());
            }
            if exists|i: int| 0 <= i < strs_view(args@).len() && strs_view(args@)[i] == help_token() {
                let i = choose|i: int|
                    0 <= i < strs_view(args@).len() && strs_view(args@)[i] == help_token();
                assert(args@[i]@ == help_token());
            }
        }
        if p.consume("--help").is_some() {
            assert(has_help);
            assert(args_next_gives(args@, Err::<(), ErrArgs>(ErrArgs::Help), rd, rn));
            return Err(ErrArgs::Help);
        }
        assert(!has_help);
        let ghost p0 = p;
        assert(groups_args(p0.k@, strs_view(args@)));
        let a = Self::new(c, &mut p);
        let ghost p1 = p;
        let ghost parsed = a;
        assert(rd(p0, p1, parsed));
        let settled = settle(a, &p);
        let r = match settled {
            Err(e) => Err(e),
            Ok((v, pos)) => {
                let ghost gv = v;
                let out = v.run(c, pos);
                assert(rn(gv, positional_tokens(p1.k@), out));
                run_outcome(out)
            },
        };
        assert(args_next_gives(args@, r, rd, rn));
        r
    }

    /// The answer to the outcome of a command: success is `None`, a request for help is
    /// answered by the help text, and any other error stands.
    fn answer<'a>(c: &C, s: &ParseCtx<'a>, inner: Result<(), ErrArgs>) -> (r: Result<
        Option<String>,
        ErrArgs,
    >)
        ensures
            args_answers(
                s.prog@,
                strs_view(s.pfx@),
                inner,
                r,
                |rows: Seq<[String; 4]>| Self::adds_usage(*c, Seq::empty(), rows),
            ),
    {
        match inner {
            Ok(()) => Ok(None),
            Err(ErrArgs::Help) => Ok(Some(Self::full_usage(c, s.prog, s.pfx.as_slice()))),
            Err(e) => Err(e),
        }
    }

    /// Reads the options and runs the command. A request for help is answered by the help
    /// text, which the caller shows.
    fn next_or_help<'a>(c: &C, s: &mut ParseCtx<'a>, args: &[Arg<'a>]) -> (r: Result<
        Option<String>,
        ErrArgs,
    >)
        ensures
            (exists|i: int| 0 <= i < args@.len() && (#[trigger] args@[i])@ == help_token())
                ==> r is Ok && r->Ok_0 is Some,
            *final(s) == *old(s),
            args_next_answers(
                args@,
                old(s).prog@,
                strs_view(old(s).pfx@),
                r,
                |p0: ParsedArgs<'a>, p1: ParsedArgs<'a>, x: Result<Self, ErrArgs>| Self::reads_options(*c, p0, p1, x),
                |v: Self, pos: Seq<Seq<char>>, out: Result<(), String>| v.runs(*c, pos, out),
                |rows: Seq<[String; 4]>| Self::adds_usage(*c, Seq::empty(), rows),
            ),
            r matches Err(e) ==> !(e is Help),
    {
        let inner = Self::next_impl(c, args);
        Self::answer(c, s, inner)
    }

    /// The table of the options: the rows that [`Args::add_usage`] adds to an empty list.
    fn usage(c: &C) -> (r: String)
        ensures
            exists|rows: Seq<[String; 4]>|
                #[trigger] Self::adds_usage(*c, Seq::empty(), rows) && r@ == table_text(rows),
    {
        let mut rows: Vec<[String; 4]> = Vec::new();
        assert(rows@ =~= Seq::<[String; 4]>::empty());
        Self::add_usage(c, &mut rows);
        to_table(&rows)
    }

    /// The help text: the command line's shape and the table of the options.
    fn full_usage(c: &C, prog: &str, pfx: &[&str]) -> (r: String)
        ensures
            args_help_text(
                prog@,
                strs_view(pfx@),
                r@,
                |rows: Seq<[String; 4]>| Self::adds_usage(*c, Seq::empty(), rows),
            ),
    {
        let u = Self::usage(c);
        let ghost ad = |rows: Seq<[String; 4]>| Self::adds_usage(*c, Seq::empty(), rows);
        let ghost rows = choose|rows: Seq<[String; 4]>|
            #[trigger] Self::adds_usage(*c, Seq::empty(), rows) && u@ == table_text(rows);
        assert(ad(rows));
        let pos = any_line_lacks_prefix(u.as_str(), PFX);
        proof {
            reveal_strlit("--");
        }
        assert(PFX@ =~= key_prefix());
        let r = usage_of(prog, pfx, u.as_str(), pos);
        assert(pos == has_positional(u@));
        assert(r@ == usage_text(prog@, strs_view(pfx@), u@, has_positional(u@)));
        assert(args_help_text(prog@, strs_view(pfx@), r@, ad));
        r
    }
}

/// The lines of a text, split at each newline; an empty text is one empty line.
pub open spec fn split_lines(s: Seq<char>) -> Seq<Seq<char>>
    decreases s.len(),
{
    if s.len() == 0 {
        seq![Seq::empty()]
    } else {
        let rest = split_lines(s.drop_first());
        if s[0] == '\n' {
            seq![Seq::<char>::empty()] + rest
        } else {
            rest.update(0, seq![s[0]] + rest[0])
        }
    }
}

proof fn lemma_split_lines_nonempty(s: Seq<char>)
    ensures
        split_lines(s).len() > 0,
    decreases s.len(),
{
    if s.len() > 0 {
        lemma_split_lines_nonempty(s.drop_first());
    }
}

/// Some line of the usage table does not start with the key prefix: there are positional
/// values to describe.
pub open spec fn has_positional(u: Seq<char>) -> bool {
    exists|i: int|
        0 <= i < split_lines(u).len() && !seq_starts_with(
            #[trigger] split_lines(u)[i],
            key_prefix(),
        )
}

/// Whether some line of `s` does not start with `p`.
fn any_line_lacks_prefix(s: &str, p: &str) -> (r: bool)
    ensures
        r == exists|i: int|
            0 <= i < split_lines(s@).len() && !seq_starts_with(#[trigger] split_lines(s@)[i], p@),
{
    let v = chars_of(s);
    let pv = chars_of(p);
    let mut lines: Vec<Vec<char>> = Vec::new();
    lines.push(Vec::new());
    let mut i: usize = v.len();
    proof {
        assert(v@.skip(i as int) =~= Seq::<char>::empty());
    }
    while i > 0
        invariant
            i <= v@.len(),
            lines@.len() > 0,
            lines@.map_values(|l: Vec<char>| l@) =~= split_lines(v@.skip(i as int)),
        decreases i,
    {
        i -= 1;
        let c = v[i];
        let ghost old_lines = lines@.map_values(|l: Vec<char>| l@);
        assert(v@.skip(i as int).drop_first() =~= v@.skip(i + 1));
        assert(v@.skip(i as int)[0] == c);
        if c == '\n' {
            lines.insert(0, Vec::new());
            assert(lines@.map_values(|l: Vec<char>| l@) =~= seq![Seq::<char>::empty()] + old_lines);
        } else {
            let mut first = Vec::new();
            first.push(c);
            let ghost f0 = lines@[0]@;
            let mut k: usize = 0;
            while k < lines[0].len()
                invariant
                    lines@.len() > 0,
                    f0 == lines@[0]@,
                    k <= f0.len(),
                    first@ =~= seq![c] + f0.take(k as int),
                decreases f0.len() - k,
            {
                first.push(lines[0][k]);
                k += 1;
            }
            assert(f0.take(f0.len() as int) =~= f0);
            lines.set(0, first);
            assert(lines@.map_values(|l: Vec<char>| l@) =~= old_lines.update(0, seq![c] + old_lines[0]));
        }
    }
    assert(v@.skip(0) =~= v@);
    let ghost lv = lines@.map_values(|l: Vec<char>| l@);
    let mut j: usize = 0;
    while j < lines.len()
        invariant
            j <= lines@.len(),
            lv == lines@.map_values(|l: Vec<char>| l@),
            lv =~= split_lines(s@),
            pv@ == p@,
            forall|m: int| 0 <= m < j ==> seq_starts_with(#[trigger] lv[m], pv@),
        decreases lines.len() - j,
    {
        assert(lv[j as int] == lines@[j as int]@);
        if !chars_start_with(&lines[j], &pv) {
            assert(!seq_starts_with(lv[j as int], p@));
            return true;
        }
        j += 1;
    }
    false
}

/// The help text of a command: `Usage: prog pfx.. <opts...>` (with the positional part
/// when there is one), then `Opts:` and the table.
pub open spec fn usage_text(prog: Seq<char>, pfx: Seq<Seq<char>>, u: Seq<char>, pos: bool) -> Seq<
    char,
> {
    let tail = if pos {
        seq!["<positional...>"@, "<opts...>"@, "--"@, "<positional...>"@]
    } else {
        seq!["<opts...>"@]
    };
    "Usage: "@ + seq_join(seq![prog] + pfx + tail, " "@) + "\nOpts:\n"@ + u
}

/// Builds [`usage_text`].
fn usage_of(prog: &str, pfx: &[&str], u: &str, pos: bool) -> (r: String)
    ensures
        r@ == usage_text(prog@, strs_view(pfx@), u@, pos),
{
    let mut parts: Vec<&str> = Vec::new();
    parts.push(prog);
    let mut i: usize = 0;
    while i < pfx.len()
        invariant
            i <= pfx@.len(),
            strs_view(parts@) =~= seq![prog@] + strs_view(pfx@).take(i as int),
        decreases pfx.len() - i,
    {
        let ghost p0 = parts@;
        parts.push(pfx[i]);
        assert(strs_view(parts@) =~= strs_view(p0).push(pfx@[i as int]@));
        i += 1;
    }
    assert(strs_view(pfx@).take(pfx@.len() as int) =~= strs_view(pfx@));
    let ghost head = strs_view(parts@);
    if pos {
        parts.push("<positional...>");
        parts.push("<opts...>");
        parts.push("--");
        parts.push("<positional...>");
        assert(strs_view(parts@) =~= head + seq![
            "<positional...>"@,
            "<opts...>"@,
            "--"@,
            "<positional...>"@,
        ]);
    } else {
        parts.push("<opts...>");
        assert(strs_view(parts@) =~= head + seq!["<opts...>"@]);
    }
    let v = join_strs(&parts, " ");
    let mut r = "Usage: ".to_owned();
    r.append(v.as_str());
    r.append("\nOpts:\n");
    r.append(u);
    r
}

/// A menu of actions, each a sub-menu or a command, picked by the next token.
pub trait Acts<C>: Sized {
    fn opts() -> Vec<&'static str>;

    /// `r` is an outcome that picking action `a` with the tokens `args` after it may have in
    /// context `c`, the parse state going from `before` to `after`. A menu that states nothing
    /// allows every outcome.
    open spec fn picks<'a>(
        c: C,
        before: ParseCtx<'a>,
        a: Arg<'a>,
        args: Seq<Arg<'a>>,
        after: ParseCtx<'a>,
        r: Result<(), ErrActs>,
    ) -> bool {
        true
    }

    /// `rows` may be the rows of this menu's table of actions. A menu that states nothing
    /// allows every list.
    open spec fn usage_rows(rows: Seq<[&'static str; 2]>) -> bool {
        true
    }

    fn next_impl<'a>(c: &C, s: &mut ParseCtx<'a>, a: &Arg<'a>, args: &[Arg<'a>]) -> (r: Result<
        (),
        ErrActs,
    >)
        ensures
            Self::picks(*c, *old(s), *a, args@, *final(s), r),
    ;

    fn desc_act() -> &'static str;

    fn usage_v() -> (r: Vec<[&'static str; 2]>)
        ensures
            Self::usage_rows(r@),
    ;

    /// `after` is the list of command paths `before` with the paths below this menu added,
    /// each led by `pfx`. A menu that states nothing allows every list.
    open spec fn adds_paths(
        pfx: Seq<Seq<char>>,
        before: Seq<Seq<Seq<char>>>,
        after: Seq<Seq<Seq<char>>>,
    ) -> bool {
        true
    }

    /// Adds the command paths below this menu to `p`, each led by `pfx`.
    fn add_paths<'a>(pfx: &Vec<Arg<'a>>, p: &mut Vec<Vec<Arg<'a>>>)
        ensures
            Self::adds_paths(strs_view(pfx@), paths_view(old(p)@), paths_view(final(p)@)),
    ;

    /// The answer to the outcome of picking an action: success is `None`, a request for help
    /// is answered by the help text for the parse state `s`, and any other error stands.
    fn answer<'a>(s: &ParseCtx<'a>, inner: Result<(), ErrActs>) -> (r: Result<
        Option<String>,
        ErrActs,
    >)
        ensures
            match inner {
                Ok(()) => r matches Ok(None),
                Err(ErrActs::Help) => r matches Ok(Some(t)) && exists|rows: Seq<[&'static str; 2]>|
                    #[trigger] Self::usage_rows(rows) && t@ == acts_usage_text(
                        s.prog@,
                        strs_view(s.pfx@),
                        table_text(rows),
                    ),
                Err(e) => r == Err::<Option<String>, ErrActs>(e),
            },
    {
        match inner {
            Ok(()) => Ok(None),
            Err(ErrActs::Help) => Ok(Some(Self::full_usage(s.prog, s.pfx.as_slice()))),
            Err(e) => Err(e),
        }
    }

    /// Picks the action named by the first token and hands it the rest. A request for
    /// help is answered by the help text, which the caller shows.
    fn next_or_help<'a>(c: &C, s: &mut ParseCtx<'a>, args: &[Arg<'a>]) -> (r: Result<
        Option<String>,
        ErrActs,
    >)
        ensures
            args@.len() == 0 ==> (r matches Err(ErrActs::Missing) && *final(s) == *old(s)),
            args@.len() > 0 ==> exists|inner: Result<(), ErrActs>|
                #[trigger] Self::picks(
                    *c,
                    *old(s),
                    args@[0],
                    args@.subrange(1, args@.len() as int),
                    *final(s),
                    inner,
                ) && match inner {
                    Ok(()) => r matches Ok(None),
                    Err(ErrActs::Help) => r matches Ok(Some(t)) && exists|
                        rows: Seq<[&'static str; 2]>,
                    |
                        #[trigger] Self::usage_rows(rows) && t@ == acts_usage_text(
                            final(s).prog@,
                            strs_view(final(s).pfx@),
                            table_text(rows),
                        ),
                    Err(e) => r == Err::<Option<String>, ErrActs>(e),
                },
            r matches Err(e) ==> !(e is Help),
    {
        if args.len() == 0 {
            return Err(ErrActs::Missing);
        }
        let a = args[0];
        let rest = &args[1..args.len()];
        assert(rest@ == args@.subrange(1, args@.len() as int));
        let inner = Self::next_impl(c, s, &a, rest);
        Self::answer(s, inner)
    }

    /// The command paths below this menu: those that [`Acts::add_paths`] adds to an empty
    /// list from an empty prefix.
    fn list<'a>() -> (r: Vec<Vec<Arg<'a>>>)
        ensures
            Self::adds_paths(Seq::empty(), Seq::empty(), paths_view(r@)),
    {
        let pfx: Vec<Arg<'a>> = Vec::new();
        let mut res: Vec<Vec<Arg<'a>>> = Vec::new();
        assert(strs_view(pfx@) =~= Seq::<Seq<char>>::empty());
        assert(paths_view(res@) =~= Seq::<Seq<Seq<char>>>::empty());
        Self::add_paths(&pfx, &mut res);
        res
    }

    /// The table of the actions: the rows that [`Acts::usage_v`] gives.
    fn usage() -> (r: String)
        ensures
            exists|rows: Seq<[&'static str; 2]>|
                #[trigger] Self::usage_rows(rows) && r@ == table_text(rows),
    {
        let v = Self::usage_v();
        let rows = v.as_slice();
        assert(rows@ == v@);
        to_table(rows)
    }

    /// The help text: `Usage: prog pfx.. <act>`, then `Acts:` and the table.
    fn full_usage(prog: &str, pfx: &[&str]) -> (r: String)
        ensures
            exists|rows: Seq<[&'static str; 2]>|
                #[trigger] Self::usage_rows(rows) && r@ == acts_usage_text(
                    prog@,
                    strs_view(pfx@),
                    table_text(rows),
                ),
    {
        let u = Self::usage();
        let r = acts_usage_of(prog, pfx, u.as_str());
        assert(r@ == acts_usage_text(prog@, strs_view(pfx@), u@));
        r
    }
}

/// Command paths, by content.
pub open spec fn paths_view<'a>(p: Seq<Vec<Arg<'a>>>) -> Seq<Seq<Seq<char>>> {
    p.map_values(|v: Vec<Arg<'a>>| strs_view(v@))
}

/// The help text of a menu of actions.
pub open spec fn acts_usage_text(prog: Seq<char>, pfx: Seq<Seq<char>>, u: Seq<char>) -> Seq<char> {
    "Usage: "@ + seq_join(seq![prog] + pfx + seq!["<act>"@], " "@) + "\nActs:\n"@ + u
}

/// Builds [`acts_usage_text`].
fn acts_usage_of(prog: &str, pfx: &[&str], u: &str) -> (r: String)
    ensures
        r@ == acts_usage_text(prog@, strs_view(pfx@), u@),
{
    let mut parts: Vec<&str> = Vec::new();
    parts.push(prog);
    let mut i: usize = 0;
    while i < pfx.len()
        invariant
            i <= pfx@.len(),
            strs_view(parts@) =~= seq![prog@] + strs_view(pfx@).take(i as int),
        decreases pfx.len() - i,
    {
        let ghost p0 = parts@;
        parts.push(pfx[i]);
        assert(strs_view(parts@) =~= strs_view(p0).push(pfx@[i as int]@));
        i += 1;
    }
    assert(strs_view(pfx@).take(pfx@.len() as int) =~= strs_view(pfx@));
    let ghost head = strs_view(parts@);
    parts.push("<act>");
    assert(strs_view(parts@) =~= head + seq!["<act>"@]);
    let v = join_strs(&parts, " ");
    let mut r = "Usage: ".to_owned();
    r.append(v.as_str());
    r.append("\nActs:\n");
    r.append(u);
    r
}

} // verus!
