//! An index-based reading of a command line: every option key is remembered by its
//! position, and an option's values are the tokens up to the next key.
use vstd::prelude::*;

use crate::parse::{default_note, is_key_token, key_prefix, DynInit, Init};
use crate::text::{join_strings, seq_join, str_eq, str_starts_with, strings_view, strs_view};
use crate::values::{int_text, parse_i32, signed_text, spells_int, spells_int_in};
use crate::{help_token, PFX};

verus! {

/// What went wrong while picking an action.
pub enum EActsKind<'arg> {
    Run(String),
    ExpectedAnAction,
    NotAnAction(&'arg str),
    ParseActs(EParseActs<'arg>),
    ParseArgs(EParseArgs<'arg>),
}

/// A failure to pick an action, with the actions picked on the way there.
pub struct EActs<'arg> {
    pub kind: EActsKind<'arg>,
    pub stack: Vec<&'arg str>,
}

/// A failure while reading a menu of actions.
pub enum EParseActs<'arg> {
    ParseArgs(EParseArgs<'arg>),
}

/// A failure while reading the options of a command.
pub enum EParseArgs<'arg> {
    ExpectedArgStart(&'arg str),
    ParseError(EParseArg<'arg>),
    UnknownArgs(Vec<&'arg str>),
    Help,
}

/// A failure to read one value.
pub struct EParseArg<'arg> {
    pub i: &'arg str,
    pub ty: &'static str,
    pub err: String,
}

impl<'arg> From<EParseActs<'arg>> for EActsKind<'arg> {
    fn from(v: EParseActs<'arg>) -> (r: Self) {
        EActsKind::ParseActs(v)
    }
}

impl<'arg> vstd::std_specs::convert::FromSpecImpl<EParseActs<'arg>> for EActsKind<'arg> {
    open spec fn obeys_from_spec() -> bool {
        true
    }

    open spec fn from_spec(v: EParseActs<'arg>) -> Self {
        EActsKind::ParseActs(v)
    }
}

impl<'arg> From<EParseArgs<'arg>> for EActs<'arg> {
    fn from(v: EParseArgs<'arg>) -> (r: Self)
        ensures
            r.kind == EActsKind::ParseArgs(v),
            r.stack@.len() == 0,
    {
        EActs { kind: EActsKind::ParseArgs(v), stack: Vec::new() }
    }
}

/// The converted error holds a fresh, empty stack, which a spec value cannot build; `from`
/// states its result in its own `ensures` instead.
impl<'arg> vstd::std_specs::convert::FromSpecImpl<EParseArgs<'arg>> for EActs<'arg> {
    open spec fn obeys_from_spec() -> bool {
        false
    }

    open spec fn from_spec(v: EParseArgs<'arg>) -> Self {
        vstd::pervasive::arbitrary()
    }
}

impl<'arg> From<String> for EActs<'arg> {
    fn from(v: String) -> (r: Self)
        ensures
            r.kind == EActsKind::Run(v),
            r.stack@.len() == 0,
    {
        EActs { kind: EActsKind::Run(v), stack: Vec::new() }
    }
}

/// The converted error holds a fresh, empty stack, which a spec value cannot build; `from`
/// states its result in its own `ensures` instead.
impl<'arg> vstd::std_specs::convert::FromSpecImpl<String> for EActs<'arg> {
    open spec fn obeys_from_spec() -> bool {
        false
    }

    open spec fn from_spec(v: String) -> Self {
        vstd::pervasive::arbitrary()
    }
}

impl<'arg> From<EParseArg<'arg>> for EParseArgs<'arg> {
    fn from(v: EParseArg<'arg>) -> (r: Self) {
        EParseArgs::ParseError(v)
    }
}

impl<'arg> vstd::std_specs::convert::FromSpecImpl<EParseArg<'arg>> for EParseArgs<'arg> {
    open spec fn obeys_from_spec() -> bool {
        true
    }

    open spec fn from_spec(v: EParseArg<'arg>) -> Self {
        EParseArgs::ParseError(v)
    }
}

/// An option key, by its position among the tokens.
pub struct Key {
    pub i: usize,
    pub used: bool,
}

/// The tokens of a command line and the positions of its option keys.
pub struct ParsedArgs<'args, 'arg> {
    pub args: &'args [&'arg str],
    pub keys: Vec<Key>,
}

/// The positions of the key tokens, in order.
pub open spec fn key_positions(args: Seq<Seq<char>>) -> Seq<int>
    decreases args.len(),
{
    if args.len() == 0 {
        Seq::empty()
    } else {
        let prev = key_positions(args.drop_last());
        if is_key_token(args.last()) {
            prev.push(args.len() - 1)
        } else {
            prev
        }
    }
}

/// The key positions are increasing, within bounds, and are exactly the key tokens.
pub proof fn lemma_key_positions(args: Seq<Seq<char>>)
    ensures
        forall|m: int|
            0 <= m < key_positions(args).len() ==> 0 <= #[trigger] key_positions(args)[m]
                < args.len() && is_key_token(args[key_positions(args)[m]]),
        forall|a: int, b: int|
            0 <= a < b < key_positions(args).len() ==> #[trigger] key_positions(args)[a]
                < #[trigger] key_positions(args)[b],
        forall|i: int|
            0 <= i < args.len() && is_key_token(#[trigger] args[i]) ==> exists|m: int|
                0 <= m < key_positions(args).len() && #[trigger] key_positions(args)[m] == i,
    decreases args.len(),
{
    if args.len() > 0 {
        let d = args.drop_last();
        lemma_key_positions(d);
        assert forall|i: int|
            0 <= i < args.len() && is_key_token(#[trigger] args[i]) implies exists|m: int|
                0 <= m < key_positions(args).len() && #[trigger] key_positions(args)[m] == i by {
            if i < args.len() - 1 {
                assert(d[i] == args[i]);
                let m = choose|m: int|
                    0 <= m < key_positions(d).len() && #[trigger] key_positions(d)[m] == i;
                assert(key_positions(args)[m] == i);
            } else {
                assert(key_positions(args)[key_positions(args).len() - 1] == i);
            }
        }
        assert forall|m: int|
            0 <= m < key_positions(args).len() implies 0 <= #[trigger] key_positions(args)[m]
                < args.len() && is_key_token(args[key_positions(args)[m]]) by {
            if m < key_positions(d).len() {
                assert(d[key_positions(d)[m]] == args[key_positions(d)[m]]);
            }
        }
    }
}

impl<'args, 'arg> ParsedArgs<'args, 'arg> {
    /// The key positions point into the tokens, in increasing order.
    pub open spec fn wf(&self) -> bool {
        &&& forall|m: int| 0 <= m < self.keys@.len() ==> (#[trigger] self.keys@[m]).i < self.args@.len()
        &&& forall|a: int, b: int|
            0 <= a < b < self.keys@.len() ==> (#[trigger] self.keys@[a]).i
                < (#[trigger] self.keys@[b]).i
    }

    /// The token of key `m`.
    pub open spec fn key_token(&self, m: int) -> Seq<char> {
        self.args@[self.keys@[m].i as int]@
    }

    /// The values of key `m`: the tokens after it, up to the next key or the end.
    pub open spec fn values_of(&self, m: int) -> Seq<&'arg str> {
        let end = if m + 1 < self.keys@.len() {
            self.keys@[m + 1].i as int
        } else {
            self.args@.len() as int
        };
        self.args@.subrange(self.keys@[m].i + 1, end)
    }

    /// Key `m` is the first whose token is `name`.
    pub open spec fn is_first(&self, name: Seq<char>, m: int) -> bool {
        &&& 0 <= m < self.keys@.len()
        &&& self.key_token(m) == name
        &&& forall|x: int| 0 <= x < m ==> self.key_token(x) != name
    }

    /// The first key whose token is `name`, if any.
    pub open spec fn find(&self, name: Seq<char>) -> Option<int> {
        if exists|m: int| self.is_first(name, m) {
            Some(choose|m: int| self.is_first(name, m))
        } else {
            None
        }
    }

    /// Marks the first key named `name` as used and returns its values.
    pub fn consume(&mut self, name: &'static str) -> (r: Option<&'args [&'arg str]>)
        requires
            old(self).wf(),
            old(self).find(name@) matches Some(m) ==> !old(self).keys@[m].used,
        ensures
            final(self).args == old(self).args,
            final(self).wf(),
            match old(self).find(name@) {
                None => r is None && final(self).keys@ == old(self).keys@,
                Some(m) => {
                    &&& r matches Some(v) && v@ == old(self).values_of(m)
                    &&& final(self).keys@ == old(self).keys@.update(
                        m,
                        Key { i: old(self).keys@[m].i, used: true },
                    )
                },
            },
    {
        let mut m: usize = 0;
        while m < self.keys.len()
            invariant
                m <= self.keys@.len(),
                *self == *old(self),
                self.wf(),
                forall|x: int| 0 <= x < m ==> self.key_token(x) != name@,
            decreases self.keys.len() - m,
        {
            let args: &'args [&'arg str] = self.args;
            if str_eq(args[self.keys[m].i], name) {
                proof {
                    assert(self.is_first(name@, m as int));
                    let f = choose|x: int| self.is_first(name@, x);
                    assert(f == m) by {
                        if f < m {
                            assert(self.key_token(f) != name@);
                        }
                        if f > m {
                            assert(self.key_token(m as int) != name@);
                        }
                    }
                }
                let idx = self.keys[m].i + 1;
                let end = if m == self.keys.len() - 1 {
                    args.len()
                } else {
                    self.keys[m + 1].i
                };
                self.keys.set(m, Key { i: self.keys[m].i, used: true });
                return Some(&args[idx..end]);
            }
            m += 1;
        }
        assert(self.find(name@) is None) by {
            if exists|x: int| self.is_first(name@, x) {
                let x = choose|x: int| self.is_first(name@, x);
                assert(self.key_token(x) != name@);
            }
        }
        None
    }
}

/// Finds the option keys of a command line. A `--help` token asks for help; otherwise the
/// first token must be a key, unless there is no key at all.
pub fn parse_args<'args, 'arg>(args: &'args [&'arg str]) -> (r: Result<
    ParsedArgs<'args, 'arg>,
    EParseArgs<'arg>,
>)
    ensures
        ({
            let ks = key_positions(strs_view(args@));
            if exists|i: int| 0 <= i < args@.len() && (#[trigger] args@[i])@ == help_token() {
                r matches Err(EParseArgs::Help)
            } else if ks.len() > 0 && ks[0] != 0 {
                r matches Err(EParseArgs::ExpectedArgStart(a)) && a == args@[0]
            } else {
                r matches Ok(p) && p.args == args && p.wf() && p.keys@.len() == ks.len() && forall|
                    m: int,
                | 0 <= m < ks.len() ==> (#[trigger] p.keys@[m]).i == ks[m] && !p.keys@[m].used
            }
        }),
{
    let ghost av = strs_view(args@);
    proof {
        reveal_strlit("--");
        reveal_strlit("--help");
        lemma_key_positions(av);
    }
    let mut keys: Vec<Key> = Vec::new();
    let mut i: usize = 0;
    while i < args.len()
        invariant
            i <= args@.len(),
            av == strs_view(args@),
            "--"@ == key_prefix(),
            keys@.len() == key_positions(av.take(i as int)).len(),
            forall|m: int|
                0 <= m < keys@.len() ==> (#[trigger] keys@[m]).i == key_positions(
                    av.take(i as int),
                )[m] && !keys@[m].used,
        decreases args.len() - i,
    {
        assert(av.take(i + 1).drop_last() =~= av.take(i as int));
        assert(av.take(i + 1).last() == args@[i as int]@);
        if str_starts_with(args[i], "--") {
            keys.push(Key { i, used: false });
        }
        i += 1;
    }
    assert(av.take(args@.len() as int) =~= av);
    let ghost ks = key_positions(av);
    let mut r = ParsedArgs { args, keys };
    assert(r.wf());
    let ghost r0 = r;
    assert("--help"@ =~= help_token());
    if r.consume("--help").is_some() {
        proof {
            let m = r0.find(help_token())->0;
            assert(r0.is_first(help_token(), m));
            let i = r0.keys@[m].i as int;
            assert((args@[i])@ == help_token());
        }
        return Err(EParseArgs::Help);
    }
    assert(r.keys@ == r0.keys@);
    proof {
        if exists|i: int| 0 <= i < args@.len() && (#[trigger] args@[i])@ == help_token() {
            let i = choose|i: int| 0 <= i < args@.len() && (#[trigger] args@[i])@ == help_token();
            assert("--help"@ =~= help_token());
            assert(av[i] == help_token());
            assert(help_token().subrange(0, 2) =~= key_prefix());
            assert(is_key_token(av[i]));
            let m = choose|m: int| 0 <= m < ks.len() && #[trigger] ks[m] == i;
            assert(r0.key_token(m) == help_token());
            lemma_first_exists(&r0, help_token(), m);
        }
    }
    if r.keys.len() != 0 && r.keys[0].i != 0 {
        Err(EParseArgs::ExpectedArgStart(args[0]))
    } else {
        Ok(r)
    }
}

/// If key `m` has token `name`, the search for `name` finds a key.
proof fn lemma_first_exists(p: &ParsedArgs, name: Seq<char>, m: int)
    requires
        0 <= m < p.keys@.len(),
        p.key_token(m) == name,
    ensures
        p.find(name) is Some,
    decreases m,
{
    if forall|x: int| 0 <= x < m ==> p.key_token(x) != name {
        assert(p.is_first(name, m));
    } else {
        let x = choose|x: int| 0 <= x < m && p.key_token(x) == name;
        lemma_first_exists(p, name, x);
    }
}

/// How `Debug` renders a list of strings, a function of the strings alone.
pub uninterp spec fn debug_strs(items: Seq<Seq<char>>) -> Seq<char>;

/// `<[&str] as Debug>::fmt`, through `format!("{:?}")`: claimed to render the list as a
/// function of its strings alone, named [`debug_strs`].
#[verifier::external_body]
fn debug_list(items: &[&str]) -> (r: String)
    ensures
        r@ == debug_strs(strs_view(items@)),
{
    format!("{:?}", items)
}

impl<'arg> EParseArg<'arg> {
    /// The message of this error.
    pub open spec fn text(&self) -> Seq<char> {
        "Failed to parse '"@ + self.i@ + "' as '"@ + self.ty@ + "' because '"@ + self.err@ + "'"@
    }

    /// The message of this error.
    pub fn to_string(&self) -> (r: String)
        ensures
            r@ == self.text(),
    {
        let mut r = "Failed to parse '".to_owned();
        r.append(self.i);
        r.append("' as '");
        r.append(self.ty);
        r.append("' because '");
        r.append(self.err.as_str());
        r.append("'");
        r
    }
}

impl<'arg> EParseArgs<'arg> {
    /// The message of this error; a request for help has none.
    pub open spec fn text(&self) -> Seq<char> {
        match self {
            EParseArgs::ExpectedArgStart(a) => "Expected arg start at '"@ + a@ + "'"@,
            EParseArgs::ParseError(e) => e.text(),
            EParseArgs::UnknownArgs(args) => "Unknown args '"@ + debug_strs(strs_view(args@))
                + "'"@,
            EParseArgs::Help => Seq::empty(),
        }
    }

    /// The message of this error.
    pub fn to_string(&self) -> (r: String)
        requires
            !(self is Help),
        ensures
            r@ == self.text(),
    {
        match self {
            EParseArgs::ExpectedArgStart(a) => {
                let mut r = "Expected arg start at '".to_owned();
                r.append(a);
                r.append("'");
                r
            },
            EParseArgs::ParseError(e) => e.to_string(),
            EParseArgs::UnknownArgs(args) => {
                let mut r = "Unknown args '".to_owned();
                let d = debug_list(args.as_slice());
                r.append(d.as_str());
                r.append("'");
                r
            },
            EParseArgs::Help => String::new(),
        }
    }
}

/// A type whose values can be read from one token.
pub trait Parse: Sized {
    /// What reading token `i` may give: `r` is a possible outcome. A type that states
    /// nothing allows every outcome.
    open spec fn reads(i: Seq<char>, r: Result<Self, EParseArg>) -> bool {
        true
    }

    fn parse_str(i: &str) -> (r: Result<Self, EParseArg>)
        ensures
            Self::reads(i@, r),
    ;

    /// `t` is a name that the type may go by. A type that states nothing allows every name.
    open spec fn named_as(t: Seq<char>) -> bool {
        true
    }

    fn tyname() -> (r: &'static str)
        ensures
            Self::named_as(r@),
    ;
}

impl Parse for i32 {
    /// A decimal integer that fits in `i32`.
    open spec fn reads(i: Seq<char>, r: Result<Self, EParseArg>) -> bool {
        &&& r is Ok <==> spells_int_in(i, true, i32::MIN as int, i32::MAX as int)
        &&& r matches Ok(v) ==> spells_int(i, true, i32::MIN as int, i32::MAX as int, v as int)
        &&& r matches Err(e) ==> e.i@ == i && e.ty@ == "i32"@
    }

    fn parse_str(i: &str) -> (r: Result<Self, EParseArg>)
        ensures
            r matches Err(e) ==> e.i == i,
    {
        match parse_i32(i) {
            Ok(v) => Ok(v),
            Err(err) => Err(EParseArg { i, ty: Self::tyname(), err }),
        }
    }

    open spec fn named_as(t: Seq<char>) -> bool {
        t == "i32"@
    }

    fn tyname() -> (r: &'static str) {
        "i32"
    }
}

impl Parse for String {
    /// The token itself.
    open spec fn reads(i: Seq<char>, r: Result<Self, EParseArg>) -> bool {
        r matches Ok(s) && s@ == i
    }

    fn parse_str(i: &str) -> (r: Result<Self, EParseArg>) {
        Ok(i.to_owned())
    }

    open spec fn named_as(t: Seq<char>) -> bool {
        t == "String"@
    }

    fn tyname() -> (r: &'static str) {
        "String"
    }
}

/// Why a token read as a path of one kind is refused, from what the file system said of
/// the path: a missing path first, then one of the other kind; nothing when it is fine.
pub open spec fn path_problem(i: Seq<char>, exists: bool, of_kind: bool, not_kind: Seq<char>) -> Option<
    Seq<char>,
> {
    if !exists {
        Some("Path does not exist '"@ + i + "'"@)
    } else if !of_kind {
        Some(not_kind + " '"@ + i + "'"@)
    } else {
        None
    }
}

/// `i` between quotes, after `head`.
fn quoted(head: &str, i: &str) -> (r: String)
    ensures
        r@ == head@ + "'"@ + i@ + "'"@,
{
    let mut r = head.to_owned();
    r.append("'");
    r.append(i);
    r.append("'");
    r
}

/// Judges a path given as a `FileExist` value, from whether it exists and is a file.
pub fn file_exist_check<'a>(i: &'a str, exists: bool, is_file: bool) -> (r: Result<
    (),
    EParseArg<'a>,
>)
    ensures
        r is Ok <==> path_problem(i@, exists, is_file, "Not a file"@) is None,
        r matches Err(e) ==> e.i == i && e.ty@ == "FileExist"@ && Some(e.err@) == path_problem(
            i@,
            exists,
            is_file,
            "Not a file"@,
        ),
{
    proof {
        reveal_strlit("Path does not exist ");
        reveal_strlit("Path does not exist '");
        reveal_strlit("Not a file ");
        reveal_strlit("Not a file");
        reveal_strlit(" '");
        reveal_strlit("'");
    }
    if !exists {
        return Err(EParseArg { i, ty: "FileExist", err: quoted("Path does not exist ", i) });
    }
    if !is_file {
        let r = quoted("Not a file ", i);
        assert(r@ =~= "Not a file"@ + " '"@ + i@ + "'"@);
        return Err(EParseArg { i, ty: "FileExist", err: r });
    }
    Ok(())
}

/// Judges a path given as a `DirExist` value, from whether it exists and is a directory.
pub fn dir_exist_check<'a>(i: &'a str, exists: bool, is_dir: bool) -> (r: Result<
    (),
    EParseArg<'a>,
>)
    ensures
        r is Ok <==> path_problem(i@, exists, is_dir, "Not a directory"@) is None,
        r matches Err(e) ==> e.i == i && e.ty@ == "DirExist"@ && Some(e.err@) == path_problem(
            i@,
            exists,
            is_dir,
            "Not a directory"@,
        ),
{
    proof {
        reveal_strlit("Path does not exist ");
        reveal_strlit("Path does not exist '");
        reveal_strlit("Not a directory ");
        reveal_strlit("Not a directory");
        reveal_strlit(" '");
        reveal_strlit("'");
    }
    if !exists {
        let r = quoted("Path does not exist ", i);
        assert(r@ =~= "Path does not exist '"@ + i@ + "'"@);
        return Err(EParseArg { i, ty: "DirExist", err: r });
    }
    if !is_dir {
        let r = quoted("Not a directory ", i);
        assert(r@ =~= "Not a directory"@ + " '"@ + i@ + "'"@);
        return Err(EParseArg { i, ty: "DirExist", err: r });
    }
    Ok(())
}

/// The default of an option, if there is one; a constant default is cloned.
fn get_init<Ctx, T: Clone>(c: &Ctx, i: &Init<Ctx, T>) -> (r: Option<T>)
    ensures
        match i {
            Init::Unset => r is None,
            Init::Const(v) => r matches Some(x) && cloned::<T>(*v, x),
            Init::Dyn(f) => r matches Some(v) && f.gives(*c, v),
        },
{
    match i {
        Init::Unset => None,
        Init::Const(v) => Some(v.clone()),
        Init::Dyn(f) => Some(f.init(c)),
    }
}

/// Renders a value as its `Debug` form, as the index-based reader's help output shows a
/// default.
pub trait ShowDebug {
    /// `t` is a text that this value's `Debug` form may be. A type that states nothing allows
    /// every text.
    open spec fn debug_shows(&self, t: Seq<char>) -> bool {
        true
    }

    fn show_debug(&self) -> (r: String)
        ensures
            self.debug_shows(r@),
    ;
}

impl ShowDebug for i32 {
    /// In decimal.
    open spec fn debug_shows(&self, t: Seq<char>) -> bool {
        t == int_text(*self as int)
    }

    fn show_debug(&self) -> (r: String) {
        signed_text(*self as i128)
    }
}

/// How `Debug` renders a string: quoted, with its special characters escaped; a function of
/// the string alone.
pub uninterp spec fn debug_string(s: Seq<char>) -> Seq<char>;

/// `<str as Debug>::fmt`, through `format!("{:?}")`: claimed to render the string as a
/// function of its text alone, named [`debug_string`].
#[verifier::external_body]
fn debug_str(s: &str) -> (r: String)
    ensures
        r@ == debug_string(s@),
{
    format!("{:?}", s)
}

impl ShowDebug for String {
    /// Quoted and escaped, as [`debug_string`] names it.
    open spec fn debug_shows(&self, t: Seq<char>) -> bool {
        t == debug_string(self@)
    }

    fn show_debug(&self) -> (r: String) {
        debug_str(self.as_str())
    }
}

/// `t` is the items in their `Debug` forms, separated by `, `, between brackets.
pub open spec fn debug_shows_items<T: ShowDebug>(items: Seq<T>, t: Seq<char>) -> bool {
    exists|ts: Seq<Seq<char>>|
        ts.len() == items.len() && (forall|k: int|
            0 <= k < items.len() ==> #[trigger] items[k].debug_shows(ts[k])) && t == seq!['[']
            + seq_join(ts, ", "@) + seq![']']
}

impl<T: ShowDebug> ShowDebug for Vec<T> {
    /// The items in their `Debug` forms, separated by `, `, between brackets.
    open spec fn debug_shows(&self, t: Seq<char>) -> bool {
        debug_shows_items(self@, t)
    }

    fn show_debug(&self) -> (r: String) {
        let mut parts: Vec<String> = Vec::new();
        let mut i: usize = 0;
        while i < self.len()
            invariant
                i <= self@.len(),
                parts@.len() == i,
                forall|k: int| 0 <= k < i ==> #[trigger] self@[k].debug_shows(parts@[k]@),
            decreases self.len() - i,
        {
            parts.push(self[i].show_debug());
            i += 1;
        }
        let j = join_strings(&parts, ", ");
        let mut r = "[".to_owned();
        r.append(j.as_str());
        r.append("]");
        proof {
            reveal_strlit("[");
            reveal_strlit("]");
        }
        assert(r@ =~= seq!['['] + seq_join(strings_view(parts@), ", "@) + seq![']']);
        assert(forall|k: int| 0 <= k < self@.len() ==> #[trigger] self@[k].debug_shows(
            strings_view(parts@)[k],
        ));
        r
    }
}

/// `note` is the help output's note on default `i`: empty when there is none, else a copy
/// of the default as shown; a computed default is a value that it may compute in context `c`.
pub open spec fn notes_default<Ctx, T: Clone + ShowDebug>(i: Init<Ctx, T>, c: Ctx, note: Seq<char>) -> bool {
    match i {
        Init::Unset => note == Seq::<char>::empty(),
        Init::Const(v) => exists|x: T, t: Seq<char>|
            cloned::<T>(v, x) && #[trigger] x.debug_shows(t) && note == default_note(t),
        Init::Dyn(f) => exists|x: T, t: Seq<char>|
            f.gives(c, x) && #[trigger] x.debug_shows(t) && note == default_note(t),
    }
}

/// The note on the default shown in help output: empty when there is none.
fn get_init_desc<Ctx, T: Clone + ShowDebug>(c: &Ctx, i: &Init<Ctx, T>) -> (r: String)
    ensures
        notes_default(*i, *c, r@),
{
    match get_init(c, i) {
        Some(s) => {
            let mut r = " (default: ".to_owned();
            let t = s.show_debug();
            r.append(t.as_str());
            r.append(")");
            assert(r@ =~= default_note(t@));
            assert(s.debug_shows(t@));
            r
        },
        None => String::new(),
    }
}

/// `kind<tyname>`, such as `Req<i32>`.
fn kind_text(kind: &str, tyname: &str) -> (r: String)
    ensures
        r@ == kind@ + "<"@ + tyname@ + ">"@,
{
    let mut r = kind.to_owned();
    r.append("<");
    r.append(tyname);
    r.append(">");
    r
}

/// Parses each token in order; the first failure ends the parse.
fn parse_each<'arg, T: Parse>(args: &[&'arg str]) -> (r: Result<Vec<T>, EParseArg<'arg>>)
    ensures
        r matches Ok(v) ==> all_read::<T>(strs_view(args@), v@),
        r matches Err(e) ==> first_failure::<T>(strs_view(args@), e),
{
    let mut out: Vec<T> = Vec::new();
    let mut n: usize = 0;
    while n < args.len()
        invariant
            n <= args@.len(),
            all_read::<T>(strs_view(args@).take(n as int), out@),
        decreases args.len() - n,
    {
        let ghost before = out@;
        match T::parse_str(args[n]) {
            Ok(v) => out.push(v),
            Err(e) => {
                proof {
                    assert forall|j: int| 0 <= j < n implies #[trigger] readable::<T>(
                        strs_view(args@)[j],
                    ) by {
                        assert(strs_view(args@).take(n as int)[j] == strs_view(args@)[j]);
                        assert(T::reads(strs_view(args@)[j], Ok(before[j])));
                    }
                    assert(T::reads(strs_view(args@)[n as int], Err(e)));
                }
                return Err(e);
            },
        }
        assert forall|j: int| 0 <= j < n + 1 implies #[trigger] T::reads(
            strs_view(args@).take(n + 1)[j],
            Ok(out@[j]),
        ) by {
            if j < n {
                assert(strs_view(args@).take(n + 1)[j] == strs_view(args@).take(n as int)[j]);
            }
        }
        n += 1;
    }
    assert(strs_view(args@).take(args@.len() as int) =~= strs_view(args@));
    Ok(out)
}

/// Each value was read from the token at its place.
pub open spec fn all_read<T: Parse>(toks: Seq<Seq<char>>, vals: Seq<T>) -> bool {
    &&& vals.len() == toks.len()
    &&& forall|j: int| 0 <= j < toks.len() ==> #[trigger] T::reads(toks[j], Ok(vals[j]))
}

/// Some value can be read from the token.
pub open spec fn readable<T: Parse>(tok: Seq<char>) -> bool {
    exists|v: T| #[trigger] T::reads(tok, Ok(v))
}

/// `e` is what reading some token gave, and every token before it read as a value.
pub open spec fn first_failure<'arg, T: Parse>(toks: Seq<Seq<char>>, e: EParseArg<'arg>) -> bool {
    exists|n: int|
        0 <= n < toks.len() && #[trigger] T::reads(toks[n], Err(e)) && forall|j: int|
            0 <= j < n ==> #[trigger] readable::<T>(toks[j])
}

/// Reads an option from the keys of a command line, falling back on its default.
pub trait Parse2: Sized {
    type Init: Clone + ShowDebug;

    fn parse_strs<'args, 'arg, Ctx>(
        i: Init<Ctx, Self::Init>,
        k: &'static str,
        c: &Ctx,
        p: &mut ParsedArgs<'args, 'arg>,
    ) -> (r: Result<Self, EParseArg<'arg>>)
        requires
            old(p).wf(),
            old(p).find(k@) matches Some(m) ==> !old(p).keys@[m].used,
        ensures
            final(p).wf(),
            final(p).args == old(p).args,
            match old(p).find(k@) {
                None => final(p).keys@ == old(p).keys@,
                Some(m) => final(p).keys@ == old(p).keys@.update(
                    m,
                    Key { i: old(p).keys@[m].i, used: true },
                ),
            },
    ;

    fn desc2<Ctx>(c: &Ctx, k: &'static str, d: &'static str, i: Init<Ctx, Self::Init>) -> [String; 4];
}

impl<T: Parse + Clone + ShowDebug> Parse2 for Vec<T> {
    type Init = Vec<T>;

    /// A list option: each value parsed in order, the first failure ending the parse; else
    /// its default or nothing.
    fn parse_strs<'args, 'arg, Ctx>(
        i: Init<Ctx, Self::Init>,
        k: &'static str,
        c: &Ctx,
        p: &mut ParsedArgs<'args, 'arg>,
    ) -> (r: Result<Self, EParseArg<'arg>>)
        ensures
            match old(p).find(k@) {
                None => match i {
                    Init::Unset => r matches Ok(v) && v@.len() == 0,
                    Init::Const(v) => r matches Ok(x) && cloned::<Vec<T>>(v, x),
                    Init::Dyn(f) => r matches Ok(x) && f.gives(*c, x),
                },
                Some(m) => match r {
                    Ok(v) => all_read::<T>(strs_view(old(p).values_of(m)), v@),
                    Err(e) => first_failure::<T>(strs_view(old(p).values_of(m)), e),
                },
            },
    {
        match p.consume(k) {
            Some(args) => parse_each(args),
            None => match get_init(c, &i) {
                Some(e) => Ok(e),
                None => Ok(Vec::new()),
            },
        }
    }

    fn desc2<Ctx>(c: &Ctx, k: &'static str, d: &'static str, i: Init<Ctx, Self::Init>) -> (r: [String; 4])
        ensures
            r@[0]@ == "--"@ + k@,
            exists|t: Seq<char>| #[trigger] T::named_as(t) && r@[1]@ == "Vec<"@ + t + ">"@,
            r@[2]@ == d@,
            notes_default(i, *c, r@[3]@),
    {
        let mut key = PFX.to_owned();
        key.append(k);
        proof {
            reveal_strlit("--");
        }
        let ty = T::tyname();
        let kind = kind_text("Vec", ty);
        assert(kind@ == "Vec<"@ + ty@ + ">"@) by {
            reveal_strlit("Vec");
            reveal_strlit("Vec<");
            reveal_strlit("<");
            assert("Vec"@ + "<"@ =~= "Vec<"@);
        }
        [key, kind, d.to_owned(), get_init_desc(c, &i)]
    }
}

impl<T: Parse + Clone + ShowDebug> Parse2 for T {
    type Init = T;

    /// A required option: exactly one value, or else its default.
    fn parse_strs<'args, 'arg, Ctx>(
        i: Init<Ctx, Self::Init>,
        k: &'static str,
        c: &Ctx,
        p: &mut ParsedArgs<'args, 'arg>,
    ) -> (r: Result<Self, EParseArg<'arg>>)
        ensures
            match old(p).find(k@) {
                None => match i {
                    Init::Unset => r matches Err(e) && e.i@ == k@ && T::named_as(e.ty@) && e.err@
                        == "'"@ + k@ + "' is required."@,
                    Init::Const(v) => r matches Ok(x) && cloned::<T>(v, x),
                    Init::Dyn(f) => r matches Ok(x) && f.gives(*c, x),
                },
                Some(m) => if old(p).values_of(m).len() != 1 {
                    r matches Err(e) && e.i@ == k@ && T::named_as(e.ty@) && e.err@
                        == "Expected only one value for '"@ + debug_strs(
                        strs_view(old(p).values_of(m)),
                    ) + "'."@
                } else {
                    T::reads(old(p).values_of(m)[0]@, r)
                },
            },
    {
        match p.consume(k) {
            Some(args) => {
                if args.len() != 1 {
                    let mut err = "Expected only one value for '".to_owned();
                    let d = debug_list(args);
                    err.append(d.as_str());
                    err.append("'.");
                    Err(EParseArg { i: k, ty: T::tyname(), err })
                } else {
                    T::parse_str(args[0])
                }
            },
            None => match get_init(c, &i) {
                Some(v) => Ok(v),
                None => {
                    let mut err = "'".to_owned();
                    err.append(k);
                    err.append("' is required.");
                    Err(EParseArg { i: k, ty: T::tyname(), err })
                },
            },
        }
    }

    fn desc2<Ctx>(c: &Ctx, k: &'static str, d: &'static str, i: Init<Ctx, Self::Init>) -> (r: [String; 4])
        ensures
            r@[0]@ == k@,
            exists|t: Seq<char>| #[trigger] T::named_as(t) && r@[1]@ == "Req<"@ + t + ">"@,
            r@[2]@ == d@,
            notes_default(i, *c, r@[3]@),
    {
        let ty = T::tyname();
        let kind = kind_text("Req", ty);
        assert(kind@ == "Req<"@ + ty@ + ">"@) by {
            reveal_strlit("Req");
            reveal_strlit("Req<");
            reveal_strlit("<");
            assert("Req"@ + "<"@ =~= "Req<"@);
        }
        [k.to_owned(), kind, d.to_owned(), get_init_desc(c, &i)]
    }
}

impl<T: Parse + Clone + ShowDebug> Parse2 for Option<T> {
    type Init = T;

    /// An optional option: exactly one value when given, else its default, if any.
    fn parse_strs<'args, 'arg, Ctx>(
        i: Init<Ctx, Self::Init>,
        k: &'static str,
        c: &Ctx,
        p: &mut ParsedArgs<'args, 'arg>,
    ) -> (r: Result<Self, EParseArg<'arg>>)
        ensures
            match old(p).find(k@) {
                None => match i {
                    Init::Unset => r matches Ok(None),
                    Init::Const(v) => r matches Ok(Some(x)) && cloned::<T>(v, x),
                    Init::Dyn(f) => r matches Ok(Some(x)) && f.gives(*c, x),
                },
                Some(m) => if old(p).values_of(m).len() != 1 {
                    r matches Err(e) && e.i@ == k@ && T::named_as(e.ty@) && e.err@
                        == "Expected one value for '"@ + k@ + "'"@
                } else {
                    match r {
                        Ok(o) => o matches Some(v) && T::reads(old(p).values_of(m)[0]@, Ok(v)),
                        Err(e) => T::reads(old(p).values_of(m)[0]@, Err(e)),
                    }
                },
            },
    {
        match p.consume(k) {
            Some(args) => {
                if args.len() != 1 {
                    let mut err = "Expected one value for '".to_owned();
                    err.append(k);
                    err.append("'");
                    Err(EParseArg { i: k, ty: T::tyname(), err })
                } else {
                    match T::parse_str(args[0]) {
                        Err(e) => Err(e),
                        Ok(t) => Ok(Some(t)),
                    }
                }
            },
            None => Ok(get_init(c, &i)),
        }
    }

    fn desc2<Ctx>(c: &Ctx, k: &'static str, d: &'static str, i: Init<Ctx, Self::Init>) -> (r: [String; 4])
        ensures
            r@[0]@ == k@,
            exists|t: Seq<char>| #[trigger] T::named_as(t) && r@[1]@ == "Opt<"@ + t + ">"@,
            r@[2]@ == d@,
            notes_default(i, *c, r@[3]@),
    {
        let ty = T::tyname();
        let kind = kind_text("Opt", ty);
        assert(kind@ == "Opt<"@ + ty@ + ">"@) by {
            reveal_strlit("Opt");
            reveal_strlit("Opt<");
            reveal_strlit("<");
            assert("Opt"@ + "<"@ =~= "Opt<"@);
        }
        [k.to_owned(), kind, d.to_owned(), get_init_desc(c, &i)]
    }
}

/// How a field of a command's struct is read, as its attributes say: an option, with its
/// description and default; a nested group of options; or a mistake, with the reason.
pub enum ArgKind<I, T, D, E> {
    Arg(I, T, D, E),
    Args(I, T),
    KindErr(&'static str),
}

/// Sorts a field by its attributes: a field needs a name; with neither a description nor a
/// default it is a nested group, with both it is an option, and with one alone it is a
/// mistake.
pub fn arg_kind<I, T, D, E>(ident: Option<I>, ty: T, desc: Option<D>, i: Option<E>) -> (r: ArgKind<
    I,
    T,
    D,
    E,
>)
    ensures
        match ident {
            None => r matches ArgKind::KindErr(m) && m@ == "Field does not have an identifier"@,
            Some(id) => match (desc, i) {
                (None, None) => r == ArgKind::<I, T, D, E>::Args(id, ty),
                (Some(d), Some(e)) => r == ArgKind::<I, T, D, E>::Arg(id, ty, d, e),
                _ => r matches ArgKind::KindErr(m) && m@
                    == "You must defind both 'desc' and 'i' for an Arg. Otherwise, do not define anything."@,
            },
        },
{
    let id = match ident {
        Some(x) => x,
        None => {
            return ArgKind::KindErr("Field does not have an identifier");
        },
    };
    match (desc, i) {
        (None, None) => ArgKind::Args(id, ty),
        (Some(d), Some(e)) => ArgKind::Arg(id, ty, d, e),
        _ => ArgKind::KindErr(
            "You must defind both 'desc' and 'i' for an Arg. Otherwise, do not define anything.",
        ),
    }
}

/// A description: a constant, or one computed from the context.
#[verifier::reject_recursive_types(Ctx)]
pub enum Desc<Ctx> {
    Const(&'static str),
    Dyn(Box<dyn DynInit<Ctx, String>>),
}

impl<Ctx> From<&'static str> for Desc<Ctx> {
    fn from(value: &'static str) -> (r: Self) {
        Desc::Const(value)
    }
}

impl<Ctx> vstd::std_specs::convert::FromSpecImpl<&'static str> for Desc<Ctx> {
    open spec fn obeys_from_spec() -> bool {
        true
    }

    open spec fn from_spec(value: &'static str) -> Self {
        Desc::Const(value)
    }
}

/// The text of a description.
pub fn get_desc<Ctx>(c: &Ctx, d: &Desc<Ctx>) -> (r: String)
    ensures
        d matches Desc::Const(e) ==> r@ == e@,
        d matches Desc::Dyn(f) ==> f.gives(*c, r),
{
    match d {
        Desc::Const(e) => (*e).to_owned(),
        Desc::Dyn(f) => f.init(c),
    }
}

/// A menu of actions, read by position: the next token names the action.
pub trait Acts {
    /// `r` is an outcome that picking action `next` with the tokens `next_args` after it
    /// may have in context `c`. A menu that states nothing allows every outcome.
    open spec fn next_gives<'arg, Ctx>(
        c: Ctx,
        next: &'arg str,
        next_args: Seq<&'arg str>,
        r: Result<(), EActs<'arg>>,
    ) -> bool {
        true
    }

    fn next<'args, 'arg, Ctx>(c: &Ctx, next: &'arg str, next_args: &'args [&'arg str]) -> (r: Result<
        (),
        EActs<'arg>,
    >)
        ensures
            Self::next_gives(*c, next, next_args@, r),
    ;

    fn desc() -> Vec<[&'static str; 2]>;

    fn act_desc() -> &'static str;
}

/// A command's options, read from the keys of its command line.
pub trait Args: Sized {
    /// `r` is an outcome that reading the options from keys `before` may have in context
    /// `c`, leaving them as `after`. A command that states nothing allows every outcome.
    open spec fn reads_options<'args, 'arg, C>(
        c: C,
        before: ParsedArgs<'args, 'arg>,
        after: ParsedArgs<'args, 'arg>,
        r: Result<Self, EParseArgs<'arg>>,
    ) -> bool {
        true
    }

    fn parse2<'args, 'arg, C>(c: &C, a: &mut ParsedArgs<'args, 'arg>) -> (r: Result<Self, EParseArgs<'arg>>)
        where Self: Run<C>
        ensures
            Self::reads_options(*c, *old(a), *final(a), r),
    ;

    fn desc<C>(c: &C, r: &mut Vec<[String; 4]>);

    fn act_desc() -> &'static str;
}

/// What a command does with its options.
pub trait Run<Ctx>: Sized {
    /// `out` is an outcome that running the command with options `a` may have in context
    /// `c`. A command that states nothing allows every outcome.
    open spec fn runs(c: Ctx, a: Self, out: Result<(), String>) -> bool {
        true
    }

    fn run(c: &Ctx, a: Self) -> (out: Result<(), String>)
        ensures
            Self::runs(*c, a, out),
    ;
}

/// `e` with `next` put on top of its stack of actions.
fn push_action<'arg>(e: EActs<'arg>, next: &'arg str) -> (r: EActs<'arg>)
    ensures
        r.kind == e.kind,
        r.stack@ == e.stack@.push(next),
{
    let mut stack = e.stack;
    stack.push(next);
    EActs { kind: e.kind, stack }
}

/// Picking an action from a menu.
pub trait IActs: Acts {
    /// Hands the tokens after the first to the action that the first names; a failure
    /// records the actions picked on the way, innermost first.
    fn parse<'args, 'arg, Ctx>(c: &Ctx, args: &'args [&'arg str]) -> (r: Result<(), EActs<'arg>>)
        ensures
            args@.len() == 0 ==> (r matches Err(e) && e.kind is ExpectedAnAction && e.stack@.len()
                == 0),
            args@.len() > 0 ==> exists|inner: Result<(), EActs<'arg>>|
                #[trigger] Self::next_gives(*c, args@[0], args@.subrange(1, args@.len() as int), inner)
                && match inner {
                    Ok(()) => r is Ok,
                    Err(e) => r matches Err(f) && f.kind == e.kind && f.stack@ == e.stack@.push(
                        args@[0],
                    ),
                },
            args@.len() > 0 ==> (r matches Err(e) ==> e.stack@.len() > 0 && e.stack@.last()
                == args@[0]),
    {
        if args.len() == 0 {
            return Err(EActs { kind: EActsKind::ExpectedAnAction, stack: Vec::new() });
        }
        let next = args[0];
        let next_args = &args[1..args.len()];
        let inner = Self::next(c, next, next_args);
        assert(next_args@ == args@.subrange(1, args@.len() as int));
        picked(inner, next)
    }
}

/// The outcome of picking action `next`, from what the action gave: success stands, and a
/// failure gets `next` put on top of its stack of actions.
pub fn picked<'arg>(inner: Result<(), EActs<'arg>>, next: &'arg str) -> (r: Result<(), EActs<'arg>>)
    ensures
        match inner {
            Ok(()) => r is Ok,
            Err(e) => r matches Err(f) && f.kind == e.kind && f.stack@ == e.stack@.push(next),
        },
{
    match inner {
        Ok(()) => Ok(()),
        Err(e) => Err(push_action(e, next)),
    }
}

impl<T: Acts> IActs for T {}

/// The key tokens that were not consumed.
pub fn unused_keys<'args, 'arg>(a: &ParsedArgs<'args, 'arg>) -> (r: Vec<&'arg str>)
    requires
        a.wf(),
    ensures
        r@ == unused_key_tokens(a.args@, a.keys@),
{
    let mut r: Vec<&'arg str> = Vec::new();
    let mut m: usize = 0;
    while m < a.keys.len()
        invariant
            m <= a.keys@.len(),
            a.wf(),
            r@ == unused_key_tokens(a.args@, a.keys@.take(m as int)),
        decreases a.keys.len() - m,
    {
        assert(a.keys@.take(m + 1).drop_last() =~= a.keys@.take(m as int));
        if !a.keys[m].used {
            r.push(a.args[a.keys[m].i]);
        }
        m += 1;
    }
    assert(a.keys@.take(a.keys@.len() as int) =~= a.keys@);
    r
}

/// The tokens of the keys that are not used, in order.
pub open spec fn unused_key_tokens<'arg>(args: Seq<&'arg str>, keys: Seq<Key>) -> Seq<&'arg str>
    decreases keys.len(),
{
    if keys.len() == 0 {
        Seq::empty()
    } else {
        let prev = unused_key_tokens(args, keys.drop_last());
        if !keys.last().used {
            prev.push(args[keys.last().i as int])
        } else {
            prev
        }
    }
}

/// Where no key is used, every key's token is unused, in order.
proof fn lemma_all_unused<'arg>(args: Seq<&'arg str>, keys: Seq<Key>)
    requires
        forall|m: int| 0 <= m < keys.len() ==> !(#[trigger] keys[m]).used,
    ensures
        unused_key_tokens(args, keys) == Seq::new(keys.len(), |m: int| args[keys[m].i as int]),
    decreases keys.len(),
{
    if keys.len() > 0 {
        lemma_all_unused(args, keys.drop_last());
        assert(unused_key_tokens(args, keys) =~= Seq::new(
            keys.len(),
            |m: int| args[keys[m].i as int],
        ));
    } else {
        assert(unused_key_tokens(args, keys) =~= Seq::new(
            keys.len(),
            |m: int| args[keys[m].i as int],
        ));
    }
}

/// Reading a command's options and running it.
pub trait IArgs: Args {
    /// Finds the keys; any key not consumed yet is unknown; else reads the options and
    /// runs the command.
    fn parse<'args, 'arg, Ctx>(c: &Ctx, args: &'args [&'arg str]) -> (r: Result<(), EActs<'arg>>)
        where Self: Run<Ctx>
        ensures
            r matches Err(e) ==> e.stack@.len() == 0,
            ({
                let ks = key_positions(strs_view(args@));
                if exists|i: int| 0 <= i < args@.len() && (#[trigger] args@[i])@ == help_token() {
                    r matches Err(e) && e.kind matches EActsKind::ParseArgs(EParseArgs::Help)
                } else if ks.len() > 0 && ks[0] != 0 {
                    r matches Err(e) && e.kind matches EActsKind::ParseArgs(
                        EParseArgs::ExpectedArgStart(a),
                    ) && a == args@[0]
                } else if ks.len() > 0 {
                    r matches Err(e) && e.kind matches EActsKind::ParseArgs(
                        EParseArgs::UnknownArgs(u),
                    ) && u@ == Seq::new(ks.len(), |m: int| args@[ks[m]])
                } else {
                    exists|
                        p0: ParsedArgs<'args, 'arg>,
                        p1: ParsedArgs<'args, 'arg>,
                        parsed: Result<Self, EParseArgs<'arg>>,
                    |
                        p0.args == args && p0.keys@.len() == 0 && #[trigger] Self::reads_options(
                            *c,
                            p0,
                            p1,
                            parsed,
                        ) && match parsed {
                            Err(e) => r matches Err(f) && f.kind == EActsKind::ParseArgs(e),
                            Ok(v) => exists|out: Result<(), String>|
                                #[trigger] <Self as Run<Ctx>>::runs(*c, v, out) && match out {
                                    Ok(()) => r is Ok,
                                    Err(m) => r matches Err(f) && f.kind == EActsKind::<'arg>::Run(m),
                                },
                        }
                }
            }),
    {
        let mut a = match parse_args(args) {
            Ok(a) => a,
            Err(e) => {
                return Err(EActs { kind: EActsKind::ParseArgs(e), stack: Vec::new() });
            },
        };
        let u = unused_keys(&a);
        proof {
            lemma_all_unused(a.args@, a.keys@);
        }
        if u.len() != 0 {
            return Err(
                EActs { kind: EActsKind::ParseArgs(EParseArgs::UnknownArgs(u)), stack: Vec::new() },
            );
        }
        let ghost p0 = a;
        let parsed = Self::parse2(c, &mut a);
        let ghost p1 = a;
        let ghost gp = parsed;
        assert(Self::reads_options(*c, p0, p1, gp));
        let v = match parsed {
            Ok(v) => v,
            Err(e) => {
                return Err(EActs { kind: EActsKind::ParseArgs(e), stack: Vec::new() });
            },
        };
        let ghost gv = v;
        let out = Self::run(c, v);
        assert(<Self as Run<Ctx>>::runs(*c, gv, out));
        match out {
            Ok(()) => Ok(()),
            Err(e) => Err(EActs { kind: EActsKind::Run(e), stack: Vec::new() }),
        }
    }
}

impl<T: Args> IArgs for T {}

/// An option key is found among the keys of a command line exactly when its token occurs
/// on the command line.
pub proof fn lemma_key_found(p: ParsedArgs, name: Seq<char>)
    requires
        p.wf(),
        p.keys@.len() == key_positions(strs_view(p.args@)).len(),
        forall|a: int|
            0 <= a < p.keys@.len() ==> (#[trigger] p.keys@[a]).i == key_positions(
                strs_view(p.args@),
            )[a],
        is_key_token(name),
    ensures
        p.find(name) is Some <==> exists|i: int| 0 <= i < p.args@.len() && p.args@[i]@ == name,
{
    let av = strs_view(p.args@);
    let ks = key_positions(av);
    lemma_key_positions(av);
    if exists|i: int| 0 <= i < p.args@.len() && p.args@[i]@ == name {
        let i = choose|i: int| 0 <= i < p.args@.len() && p.args@[i]@ == name;
        assert(av[i] == name);
        let m = choose|m: int| 0 <= m < ks.len() && #[trigger] ks[m] == i;
        assert(p.keys@[m].i == i);
        lemma_first_exists(&p, name, m);
    }
    if p.find(name) is Some {
        let m = choose|m: int| p.is_first(name, m);
        assert(p.args@[p.keys@[m].i as int]@ == name);
    }
}

/// An option's values never include a key token: they run up to the next key.
pub proof fn lemma_values_hold_no_key(p: ParsedArgs, m: int, x: int)
    requires
        p.wf(),
        p.keys@.len() == key_positions(strs_view(p.args@)).len(),
        forall|a: int|
            0 <= a < p.keys@.len() ==> (#[trigger] p.keys@[a]).i == key_positions(
                strs_view(p.args@),
            )[a],
        0 <= m < p.keys@.len(),
        0 <= x < p.values_of(m).len(),
    ensures
        !is_key_token(p.values_of(m)[x]@),
{
    let av = strs_view(p.args@);
    let ks = key_positions(av);
    lemma_key_positions(av);
    let q = p.keys@[m].i + 1 + x;
    assert(p.values_of(m)[x] == p.args@[q]);
    assert(av[q] == p.args@[q]@);
    if is_key_token(av[q]) {
        let m2 = choose|m2: int| 0 <= m2 < ks.len() && #[trigger] ks[m2] == q;
        if m2 <= m {
            if m2 < m {
                assert(ks[m2] < ks[m]);
            }
        } else if m2 == m + 1 {
        } else {
            assert(ks[m + 1] < ks[m2]);
        }
    }
}

} // verus!
