//! Shell glue generated from the command paths of a program.
use vstd::prelude::*;

use crate::text::{join_strings, seq_join, str_eq, strings_view};
use crate::values::{decimal, lemma_unsigned_nonneg, parse_usize, spells_int, spells_int_in};

verus! {

/// The head of a generated shell script.
pub open spec fn script_head() -> Seq<char> {
    "#!/bin/bash\n# Generated script"@
}

/// The shell function for one command path: named by its words joined with `_`, running
/// the words joined with spaces, with the function's arguments.
pub open spec fn shell_function(words: Seq<Seq<char>>) -> Seq<char> {
    "function "@ + seq_join(words, "_"@) + " () { "@ + seq_join(words, " "@) + " \"$@\"; } "@
}

/// The script of shell functions for the command paths, each path led by `pfx`.
pub open spec fn shell_script(pfx: Seq<char>, cmds: Seq<Seq<Seq<char>>>) -> Seq<char> {
    script_head() + "\n"@ + seq_join(
        Seq::new(cmds.len(), |k: int| shell_function(seq![pfx] + cmds[k])),
        "\n"@,
    ) + "\n"@
}

/// Writes one shell function per command path, each path led by the program's name `pfx`.
pub fn shell_functions(pfx: &str, cmds: &Vec<Vec<String>>) -> (r: String)
    ensures
        r@ == shell_script(pfx@, cmds@.map_values(|c: Vec<String>| strings_view(c@))),
{
    let ghost cv = cmds@.map_values(|c: Vec<String>| strings_view(c@));
    let mut lines: Vec<String> = Vec::new();
    let mut k: usize = 0;
    while k < cmds.len()
        invariant
            k <= cmds@.len(),
            cv == cmds@.map_values(|c: Vec<String>| strings_view(c@)),
            strings_view(lines@) =~= Seq::new(
                k as nat,
                |x: int| shell_function(seq![pfx@] + cv[x]),
            ),
        decreases cmds.len() - k,
    {
        let c = &cmds[k];
        let mut words: Vec<String> = Vec::new();
        words.push(pfx.to_owned());
        let mut n: usize = 0;
        while n < c.len()
            invariant
                n <= c@.len(),
                strings_view(words@) =~= seq![pfx@] + strings_view(c@).take(n as int),
            decreases c.len() - n,
        {
            let ghost w0 = words@;
            words.push(c[n].clone());
            assert(strings_view(words@) =~= strings_view(w0).push(c@[n as int]@));
            n += 1;
        }
        assert(strings_view(c@).take(c@.len() as int) =~= strings_view(c@));
        assert(cv[k as int] == strings_view(c@));
        let mut line = "function ".to_owned();
        let name = join_strings(&words, "_");
        line.append(name.as_str());
        line.append(" () { ");
        let run = join_strings(&words, " ");
        line.append(run.as_str());
        line.append(" \"$@\"; } ");
        let ghost l0 = lines@;
        lines.push(line);
        assert(strings_view(lines@) =~= strings_view(l0).push(line@));
        k += 1;
    }
    let body = join_strings(&lines, "\n");
    let mut r = "#!/bin/bash\n# Generated script".to_owned();
    r.append("\n");
    r.append(body.as_str());
    r.append("\n");
    r
}

/// The groups that a regular expression captures in a text: `None` when the text has no
/// match (or the pattern does not compile); otherwise group 0, the whole match, then each
/// group in order, `None` for a group that took no part.
pub uninterp spec fn regex_captures(pattern: Seq<char>, text: Seq<char>) -> Option<
    Seq<Option<Seq<char>>>,
>;

/// Optional string contents.
pub open spec fn opt_string_view(g: Option<String>) -> Option<Seq<char>> {
    match g {
        Some(s) => Some(s@),
        None => None,
    }
}

/// The captured groups, by content.
pub open spec fn groups_view(v: Seq<Option<String>>) -> Seq<Option<Seq<char>>> {
    v.map_values(|g: Option<String>| opt_string_view(g))
}

/// `regex::Regex::new(pattern)` then `Regex::captures(text)`: claimed to return the groups
/// captured at the leftmost-first match, named [`regex_captures`], a function of the
/// pattern and the text alone.
#[verifier::external_body]
fn captures(pattern: &str, text: &str) -> (r: Option<Vec<Option<String>>>)
    ensures
        match r {
            Some(v) => regex_captures(pattern@, text@) == Some(groups_view(v@)),
            None => regex_captures(pattern@, text@) is None,
        },
{
    let re = regex::Regex::new(pattern).ok()?;
    let caps = re.captures(text)?;
    Some(caps.iter().map(|m| m.map(|m| m.as_str().to_owned())).collect())
}

/// Group `i` of a capture, if it is there.
pub open spec fn caps_group(c: Seq<Option<Seq<char>>>, i: int) -> Option<Seq<char>> {
    if 0 <= i < c.len() {
        c[i]
    } else {
        None
    }
}

/// The group `i` that was captured, if any.
fn group(c: &Vec<Option<String>>, i: usize) -> (r: Option<String>)
    ensures
        opt_string_view(r) == caps_group(groups_view(c@), i as int),
{
    if i < c.len() {
        match &c[i] {
            Some(s) => Some(s.clone()),
            None => None,
        }
    } else {
        None
    }
}

/// The line that opens a script's metadata.
pub const START: &'static str = "^# start metadata$";

/// The line that closes a script's metadata.
pub const END: &'static str = "^# end metadata$";

/// The line that gives a script's kind.
pub const TY: &'static str = "^# type ([^ ]+)$";

/// A line that binds an argument: its name, the shell variable, and its description.
pub const ARG: &'static str = "^([^=]+)=([()\"1-9${}:@]+)(.*)$";

/// A shell variable: `$N`, or `("${@:N}")` for the rest of the arguments.
pub const SH_VAR: &'static str = "([(${\"@:]+)([0-9]+)(\\}\"\\))?";

/// The kind of a script: its output is returned as text, or it runs in the terminal.
#[derive(PartialEq, Eq, Structural, Clone, Copy)]
pub enum ShType {
    Text,
    Interactive,
}

/// One argument of a script: its name, its position, whether it takes the rest of the
/// arguments, and its description.
pub struct ShArg {
    pub name: String,
    pub num: usize,
    pub varidic: bool,
    pub desc: String,
}

/// Why a script's metadata could not be read. Line numbers count the metadata lines,
/// the kind line being 0; argument numbers count the arguments from 0.
#[derive(PartialEq, Eq, Structural, Clone, Copy)]
pub enum GenErr {
    MissingTags,
    NoTypeLine,
    NoTypeTag,
    UnexpectedType,
    MalformedLine(usize),
    MalformedVariable(usize),
    BadVariable(usize),
    NotANumber(usize),
    NotOrdered(usize),
    NotLastVaridic(usize),
}

/// The lines after an opening line, up to the closing line: further opening lines are
/// skipped.
pub open spec fn body_lines(lines: Seq<Seq<char>>) -> Seq<Seq<char>>
    decreases lines.len(),
{
    if lines.len() == 0 {
        Seq::empty()
    } else if regex_captures(START@, lines[0]) is Some {
        body_lines(lines.drop_first())
    } else if regex_captures(END@, lines[0]) is Some {
        Seq::empty()
    } else {
        seq![lines[0]] + body_lines(lines.drop_first())
    }
}

/// The metadata of a script: the lines after its first opening line, up to the closing
/// line; `None` when no line opens it.
pub open spec fn metadata(lines: Seq<Seq<char>>) -> Option<Seq<Seq<char>>>
    decreases lines.len(),
{
    if lines.len() == 0 {
        None
    } else if regex_captures(START@, lines[0]) is Some {
        Some(body_lines(lines.drop_first()))
    } else {
        metadata(lines.drop_first())
    }
}

/// The kind that a line gives.
pub open spec fn type_of(line: Seq<char>) -> Result<ShType, GenErr> {
    match regex_captures(TY@, line) {
        None => Err(GenErr::NoTypeTag),
        Some(c) => match caps_group(c, 1) {
            None => Err(GenErr::NoTypeTag),
            Some(t) => if t == "text"@ {
                Ok(ShType::Text)
            } else if t == "interactive"@ {
                Ok(ShType::Interactive)
            } else {
                Err(GenErr::UnexpectedType)
            },
        },
    }
}

/// The argument that metadata line `k` binds: its name, the digits of its position,
/// whether it takes the rest of the arguments, and its description.
pub open spec fn arg_of(line: Seq<char>, k: int) -> Result<
    (Seq<char>, Seq<char>, bool, Seq<char>),
    GenErr,
> {
    match regex_captures(ARG@, line) {
        None => Err(GenErr::MalformedLine(k as usize)),
        Some(m) => if caps_group(m, 1) is None || caps_group(m, 2) is None || caps_group(m, 3) is None {
            Err(GenErr::MalformedLine(k as usize))
        } else {
            let v = caps_group(m, 2)->0;
            match regex_captures(SH_VAR@, v) {
                None => Err(GenErr::MalformedVariable(k as usize)),
                Some(vc) => if caps_group(vc, 2) is None {
                    Err(GenErr::BadVariable(k as usize))
                } else if caps_group(vc, 3) is Some && caps_group(vc, 1) == Some("(\"${@:"@) {
                    Ok((caps_group(m, 1)->0, caps_group(vc, 2)->0, true, caps_group(m, 3)->0))
                } else if caps_group(vc, 3) is None && caps_group(vc, 1) == Some("$"@) {
                    Ok((caps_group(m, 1)->0, caps_group(vc, 2)->0, false, caps_group(m, 3)->0))
                } else {
                    Err(GenErr::BadVariable(k as usize))
                },
            }
        },
    }
}

/// The argument that metadata line `k` binds, its position read as a number.
pub open spec fn arg_at(line: Seq<char>, k: int) -> Result<(Seq<char>, int, bool, Seq<char>), GenErr> {
    match arg_of(line, k) {
        Err(e) => Err(e),
        Ok((name, digits, varidic, desc)) => match decimal(digits, false) {
            Some(n) => if n <= usize::MAX {
                Ok((name, n, varidic, desc))
            } else {
                Err(GenErr::NotANumber(k as usize))
            },
            None => Err(GenErr::NotANumber(k as usize)),
        },
    }
}

/// The arguments of metadata lines `k..`, or the error of the first line that fails.
pub open spec fn args_of(lines: Seq<Seq<char>>, k: int) -> Result<
    Seq<(Seq<char>, int, bool, Seq<char>)>,
    GenErr,
>
    decreases lines.len(),
{
    if lines.len() == 0 {
        Ok(Seq::empty())
    } else {
        match arg_at(lines[0], k) {
            Err(e) => Err(e),
            Ok(a) => match args_of(lines.drop_first(), k + 1) {
                Err(e) => Err(e),
                Ok(rest) => Ok(seq![a] + rest),
            },
        }
    }
}

/// The first argument, from `i` on, that is out of place: its position is not its
/// number, or it takes the rest of the arguments without being the last.
pub open spec fn order_error(args: Seq<(Seq<char>, int, bool, Seq<char>)>, i: int) -> Option<GenErr>
    decreases args.len() - i,
{
    if i < 0 || i >= args.len() {
        None
    } else if i + 1 != args[i].1 {
        Some(GenErr::NotOrdered(i as usize))
    } else if args[i].2 && args[i].1 != args.len() {
        Some(GenErr::NotLastVaridic(i as usize))
    } else {
        order_error(args, i + 1)
    }
}

/// The view of an argument.
pub open spec fn arg_view(a: ShArg) -> (Seq<char>, int, bool, Seq<char>) {
    (a.name@, a.num as int, a.varidic, a.desc@)
}

/// One documentation line per described argument: `/// name description`.
pub open spec fn doc_lines(args: Seq<(Seq<char>, int, bool, Seq<char>)>) -> Seq<Seq<char>>
    decreases args.len(),
{
    if args.len() == 0 {
        Seq::empty()
    } else {
        let prev = doc_lines(args.drop_last());
        let a = args.last();
        if a.3.len() > 0 {
            prev.push("/// "@ + a.0 + a.3)
        } else {
            prev
        }
    }
}

/// The documentation of the generated function.
pub open spec fn doc_text(args: Seq<(Seq<char>, int, bool, Seq<char>)>) -> Seq<char> {
    seq_join(doc_lines(args), "\n"@)
}

/// Some argument takes the rest of the arguments.
pub open spec fn any_varidic(args: Seq<(Seq<char>, int, bool, Seq<char>)>) -> bool {
    exists|i: int| 0 <= i < args.len() && (#[trigger] args[i]).2
}

/// The parameters of the generated function.
pub open spec fn fn_args_text(args: Seq<(Seq<char>, int, bool, Seq<char>)>) -> Seq<char> {
    seq_join(
        args.map_values(
            |a: (Seq<char>, int, bool, Seq<char>)|
                if !a.2 {
                    a.0 + ": String"@
                } else {
                    a.0 + ": &[String]"@
                },
        ),
        ", "@,
    )
}

/// The arguments that the generated function hands the command.
pub open spec fn cmd_args_text(args: Seq<(Seq<char>, int, bool, Seq<char>)>) -> Seq<char> {
    if args.len() == 0 {
        Seq::empty()
    } else {
        ".args(vec!["@ + seq_join(
            args.map_values(
                |a: (Seq<char>, int, bool, Seq<char>)|
                    if !a.2 {
                        a.0
                    } else {
                        ".."@ + a.0 + ".to_owned()"@
                    },
            ),
            ", "@,
        ) + "])"@
    }
}

/// The Rust function that runs a script: named `name`, running `cmd` with the arguments.
pub open spec fn render(
    name: Seq<char>,
    cmd: Seq<char>,
    ty: ShType,
    args: Seq<(Seq<char>, int, bool, Seq<char>)>,
) -> Seq<char> {
    let text = ty == ShType::Text;
    let ret_ty = if text { "String"@ } else { "()"@ };
    let vec = if any_varidic(args) {
        "use velcro::vec;"@
    } else {
        Seq::empty()
    };
    let res = if text { "let r = "@ } else { "let _ = "@ };
    let exec = if text { "output"@ } else { "status"@ };
    let ret = if text {
        "Ok(String::from_utf8(r.stdout).map_err(|e| format!(\"Output of '"@ + cmd
            + "' not valid UTF-8. '{e}'\"))?)"@
    } else {
        "Ok(())"@
    };
    doc_text(args) + "\n#[allow(dead_code)]\npub fn "@ + name + "("@ + fn_args_text(args)
        + ") -> Res<"@ + ret_ty + "> {\n    "@ + vec + "\n    "@ + res
        + "std::process::Command::new(\""@ + cmd + "\")"@ + cmd_args_text(args) + "."@ + exec
        + "().map_err(|e| format!(\"Command '"@ + cmd + "' error '{e}'\"))?;\n    "@ + ret
        + "\n}\n"@
}

/// Text `w` stands in `s` at offset `o`.
pub open spec fn occurs_at(s: Seq<char>, w: Seq<char>, o: int) -> bool {
    0 <= o && o + w.len() <= s.len() && s.subrange(o, o + w.len()) == w
}

/// The expression that hands argument `a` to the command: its name, or all the values it
/// holds when it takes the rest of the arguments.
pub open spec fn arg_expr(a: (Seq<char>, int, bool, Seq<char>)) -> Seq<char> {
    if !a.2 {
        a.0
    } else {
        ".."@ + a.0 + ".to_owned()"@
    }
}

/// For every kind of script, the generated function hands the command every declared
/// argument, in order, right where the command is made:
/// `std::process::Command::new("cmd").args(vec![a, b, ..c.to_owned()]).`
pub proof fn lemma_command_gets_every_argument(
    name: Seq<char>,
    cmd: Seq<char>,
    ty: ShType,
    args: Seq<(Seq<char>, int, bool, Seq<char>)>,
)
    requires
        args.len() > 0,
    ensures
        ({
            let w = "std::process::Command::new(\""@ + cmd + "\").args(vec!["@ + seq_join(
                args.map_values(|a: (Seq<char>, int, bool, Seq<char>)| arg_expr(a)),
                ", "@,
            ) + "])."@;
            exists|o: int| #[trigger] occurs_at(render(name, cmd, ty, args), w, o)
        }),
{
    let text = ty == ShType::Text;
    let ret_ty = if text { "String"@ } else { "()"@ };
    let vec = if any_varidic(args) {
        "use velcro::vec;"@
    } else {
        Seq::empty()
    };
    let res = if text { "let r = "@ } else { "let _ = "@ };
    let exec = if text { "output"@ } else { "status"@ };
    let ret = if text {
        "Ok(String::from_utf8(r.stdout).map_err(|e| format!(\"Output of '"@ + cmd
            + "' not valid UTF-8. '{e}'\"))?)"@
    } else {
        "Ok(())"@
    };
    let exprs = args.map_values(|a: (Seq<char>, int, bool, Seq<char>)| arg_expr(a));
    let inner = args.map_values(
        |a: (Seq<char>, int, bool, Seq<char>)|
            if !a.2 {
                a.0
            } else {
                ".."@ + a.0 + ".to_owned()"@
            },
    );
    assert(inner =~= exprs);
    let w = "std::process::Command::new(\""@ + cmd + "\").args(vec!["@ + seq_join(exprs, ", "@)
        + "])."@;
    let a = doc_text(args) + "\n#[allow(dead_code)]\npub fn "@ + name + "("@ + fn_args_text(args)
        + ") -> Res<"@ + ret_ty + "> {\n    "@ + vec + "\n    "@ + res;
    let b = exec + "().map_err(|e| format!(\"Command '"@ + cmd + "' error '{e}'\"))?;\n    "@
        + ret + "\n}\n"@;
    reveal_strlit("\")");
    reveal_strlit(".args(vec![");
    reveal_strlit("\").args(vec![");
    reveal_strlit("])");
    reveal_strlit(".");
    reveal_strlit("]).");
    assert(cmd_args_text(args) == ".args(vec!["@ + seq_join(exprs, ", "@) + "])"@);
    assert("\")"@ + ".args(vec!["@ =~= "\").args(vec!["@);
    assert("])"@ + "."@ =~= "])."@);
    let r = render(name, cmd, ty, args);
    assert(r =~= a + w + b);
    assert(r.subrange(a.len() as int, (a.len() + w.len()) as int) =~= w);
    assert(occurs_at(r, w, a.len() as int));
}

/// The generated function for a script with lines `lines`, or why there is none.
pub open spec fn gen_result(lines: Seq<Seq<char>>, name: Seq<char>, cmd: Seq<char>) -> Result<
    Seq<char>,
    GenErr,
> {
    match metadata(lines) {
        None => Err(GenErr::MissingTags),
        Some(meta) => if meta.len() == 0 {
            Err(GenErr::NoTypeLine)
        } else {
            match type_of(meta[0]) {
                Err(e) => Err(e),
                Ok(ty) => match args_of(meta.drop_first(), 1) {
                    Err(e) => Err(e),
                    Ok(args) => match order_error(args, 0) {
                        Some(e) => Err(e),
                        None => Ok(render(name, cmd, ty, args)),
                    },
                },
            }
        },
    }
}

/// Whether `line` matches `pattern`.
fn matches_line(pattern: &str, line: &str) -> (r: bool)
    ensures
        r == regex_captures(pattern@, line@) is Some,
{
    captures(pattern, line).is_some()
}

/// The metadata lines of a script: after its first opening line, up to the closing line,
/// further opening lines skipped; `None` when no line opens it.
pub fn metadata_lines(lines: &Vec<String>) -> (r: Option<Vec<String>>)
    ensures
        match r {
            Some(m) => metadata(strings_view(lines@)) == Some(strings_view(m@)),
            None => metadata(strings_view(lines@)) is None,
        },
{
    let ghost lv = strings_view(lines@);
    let mut i: usize = 0;
    assert(lv.skip(0) =~= lv);
    while i < lines.len()
        invariant
            i <= lines@.len(),
            lv == strings_view(lines@),
            metadata(lv) == metadata(lv.skip(i as int)),
        ensures
            i <= lines@.len(),
            metadata(lv) == metadata(lv.skip(i as int)),
            i < lines@.len() ==> regex_captures(START@, lv[i as int]) is Some,
        decreases lines.len() - i,
    {
        assert(lv.skip(i as int).drop_first() =~= lv.skip(i + 1));
        assert(lv.skip(i as int)[0] == lines@[i as int]@);
        if matches_line(START, lines[i].as_str()) {
            assert(lv[i as int] == lines@[i as int]@);
            break;
        }
        i += 1;
    }
    if i == lines.len() {
        assert(lv.skip(i as int) =~= Seq::<Seq<char>>::empty());
        return None;
    }
    assert(lv.skip(i as int).drop_first() =~= lv.skip(i + 1));
    assert(lv.skip(i as int)[0] == lv[i as int]);
    assert(metadata(lv) == Some(body_lines(lv.skip(i + 1))));
    let mut acc: Vec<String> = Vec::new();
    assert(strings_view(acc@) + body_lines(lv.skip(i + 1)) =~= body_lines(lv.skip(i + 1)));
    let mut j: usize = i + 1;
    while j < lines.len()
        invariant
            i < j <= lines@.len(),
            lv == strings_view(lines@),
            metadata(lv) == Some(body_lines(lv.skip(i + 1))),
            body_lines(lv.skip(i + 1)) == strings_view(acc@) + body_lines(lv.skip(j as int)),
        decreases lines.len() - j,
    {
        assert(lv.skip(j as int).drop_first() =~= lv.skip(j + 1));
        assert(lv.skip(j as int)[0] == lines@[j as int]@);
        if matches_line(START, lines[j].as_str()) {
        } else if matches_line(END, lines[j].as_str()) {
            assert(body_lines(lv.skip(j as int)) =~= Seq::<Seq<char>>::empty());
            assert(strings_view(acc@) + Seq::<Seq<char>>::empty() =~= strings_view(acc@));
            return Some(acc);
        } else {
            let ghost a0 = strings_view(acc@);
            acc.push(lines[j].clone());
            assert(strings_view(acc@) =~= a0.push(lines@[j as int]@));
            assert(a0 + (seq![lines@[j as int]@] + body_lines(lv.skip(j + 1))) =~= strings_view(
                acc@,
            ) + body_lines(lv.skip(j + 1)));
        }
        j += 1;
    }
    assert(lv.skip(j as int) =~= Seq::<Seq<char>>::empty());
    assert(strings_view(acc@) + Seq::<Seq<char>>::empty() =~= strings_view(acc@));
    Some(acc)
}

/// The kind that a line gives.
fn type_of_line(line: &str) -> (r: Result<ShType, GenErr>)
    ensures
        r == type_of(line@),
{
    match captures(TY, line) {
        None => Err(GenErr::NoTypeTag),
        Some(c) => match group(&c, 1) {
            None => Err(GenErr::NoTypeTag),
            Some(t) => if str_eq(t.as_str(), "text") {
                Ok(ShType::Text)
            } else if str_eq(t.as_str(), "interactive") {
                Ok(ShType::Interactive)
            } else {
                Err(GenErr::UnexpectedType)
            },
        },
    }
}

/// The argument that metadata line `k` binds.
fn arg_at_line(line: &str, k: usize) -> (r: Result<ShArg, GenErr>)
    ensures
        match r {
            Ok(a) => arg_at(line@, k as int) == Ok::<_, GenErr>(arg_view(a)),
            Err(e) => arg_at(line@, k as int) == Err::<(Seq<char>, int, bool, Seq<char>), GenErr>(e),
        },
{
    let m = match captures(ARG, line) {
        None => {
            return Err(GenErr::MalformedLine(k));
        },
        Some(m) => m,
    };
    let (name, v, desc) = match (group(&m, 1), group(&m, 2), group(&m, 3)) {
        (Some(name), Some(v), Some(desc)) => (name, v, desc),
        _ => {
            return Err(GenErr::MalformedLine(k));
        },
    };
    let vc = match captures(SH_VAR, v.as_str()) {
        None => {
            return Err(GenErr::MalformedVariable(k));
        },
        Some(vc) => vc,
    };
    let digits = match group(&vc, 2) {
        None => {
            return Err(GenErr::BadVariable(k));
        },
        Some(d) => d,
    };
    let g1 = group(&vc, 1);
    let g3 = group(&vc, 3);
    proof {
        reveal_strlit("$");
        reveal_strlit("(\"${@:");
        assert("$"@.len() == 1);
        assert("(\"${@:"@.len() == 6);
    }
    let lead = match &g1 {
        Some(x) => if str_eq(x.as_str(), "(\"${@:") {
            1u8
        } else if str_eq(x.as_str(), "$") {
            2u8
        } else {
            0u8
        },
        None => 0u8,
    };
    let varidic = if g3.is_some() && lead == 1 {
        true
    } else if g3.is_none() && lead == 2 {
        false
    } else {
        proof {
            let ms = regex_captures(ARG@, line@)->0;
            let vs = regex_captures(SH_VAR@, caps_group(ms, 2)->0)->0;
            assert(caps_group(ms, 2) == Some(v@));
            assert(caps_group(vs, 1) == opt_string_view(g1));
            assert(caps_group(vs, 3) == opt_string_view(g3));
            assert(!(caps_group(vs, 3) is Some && caps_group(vs, 1) == Some("(\"${@:"@)));
            assert(!(caps_group(vs, 3) is None && caps_group(vs, 1) == Some("$"@)));
        }
        return Err(GenErr::BadVariable(k));
    };
    proof {
        lemma_unsigned_nonneg(digits@);
    }
    let num = match parse_usize(digits.as_str()) {
        Ok(n) => n,
        Err(_) => {
            return Err(GenErr::NotANumber(k));
        },
    };
    Ok(ShArg { name, num, varidic, desc })
}

/// Puts `acc` before the arguments of a result.
pub open spec fn prepend(
    acc: Seq<(Seq<char>, int, bool, Seq<char>)>,
    r: Result<Seq<(Seq<char>, int, bool, Seq<char>)>, GenErr>,
) -> Result<Seq<(Seq<char>, int, bool, Seq<char>)>, GenErr> {
    match r {
        Ok(rest) => Ok(acc + rest),
        Err(e) => Err(e),
    }
}

/// The views of arguments.
pub open spec fn args_view(v: Seq<ShArg>) -> Seq<(Seq<char>, int, bool, Seq<char>)> {
    v.map_values(|a: ShArg| arg_view(a))
}

/// The arguments that the metadata lines after the kind line bind.
fn args_of_lines(meta: &Vec<String>) -> (r: Result<Vec<ShArg>, GenErr>)
    requires
        meta@.len() > 0,
    ensures
        match r {
            Ok(v) => args_of(strings_view(meta@).drop_first(), 1) == Ok::<_, GenErr>(args_view(v@)),
            Err(e) => args_of(strings_view(meta@).drop_first(), 1) == Err::<
                Seq<(Seq<char>, int, bool, Seq<char>)>,
                GenErr,
            >(e),
        },
{
    let ghost mv = strings_view(meta@);
    let mut out: Vec<ShArg> = Vec::new();
    let mut k: usize = 1;
    assert(mv.skip(1) =~= mv.drop_first());
    assert(args_view(out@) + Seq::<(Seq<char>, int, bool, Seq<char>)>::empty() =~= Seq::empty());
    proof {
        match args_of(mv.skip(1), 1) {
            Ok(rest) => {
                assert(args_view(out@) + rest =~= rest);
            },
            Err(_) => {},
        }
    }
    while k < meta.len()
        invariant
            1 <= k <= meta@.len(),
            mv == strings_view(meta@),
            args_of(mv.drop_first(), 1) == prepend(args_view(out@), args_of(mv.skip(k as int), k as int)),
        decreases meta.len() - k,
    {
        assert(mv.skip(k as int).drop_first() =~= mv.skip(k + 1));
        assert(mv.skip(k as int)[0] == meta@[k as int]@);
        match arg_at_line(meta[k].as_str(), k) {
            Err(e) => {
                return Err(e);
            },
            Ok(a) => {
                let ghost o0 = args_view(out@);
                out.push(a);
                assert(args_view(out@) =~= o0.push(arg_view(a)));
                proof {
                    match args_of(mv.skip(k + 1), k + 1) {
                        Ok(rest) => {
                            assert(o0 + (seq![arg_view(a)] + rest) =~= args_view(out@) + rest);
                        },
                        Err(_) => {},
                    }
                }
            },
        }
        k += 1;
    }
    assert(mv.skip(k as int) =~= Seq::<Seq<char>>::empty());
    assert(args_view(out@) + Seq::<(Seq<char>, int, bool, Seq<char>)>::empty() =~= args_view(out@));
    Ok(out)
}

/// The first argument that is out of place, if any.
fn order_check(args: &Vec<ShArg>) -> (r: Option<GenErr>)
    ensures
        r == order_error(args_view(args@), 0),
{
    let ghost av = args_view(args@);
    let mut i: usize = 0;
    while i < args.len()
        invariant
            i <= args@.len(),
            av == args_view(args@),
            order_error(av, 0) == order_error(av, i as int),
        decreases args.len() - i,
    {
        assert(av[i as int] == arg_view(args@[i as int]));
        if i + 1 != args[i].num {
            return Some(GenErr::NotOrdered(i));
        }
        if args[i].varidic && args[i].num != args.len() {
            return Some(GenErr::NotLastVaridic(i));
        }
        i += 1;
    }
    None
}

/// The generated function's text, piece by piece.
fn render_fn(name: &str, cmd: &str, ty: ShType, args: &Vec<ShArg>) -> (r: String)
    ensures
        r@ == render(name@, cmd@, ty, args_view(args@)),
{
    let ghost av = args_view(args@);
    let mut docs: Vec<String> = Vec::new();
    let mut params: Vec<String> = Vec::new();
    let mut passed: Vec<String> = Vec::new();
    let mut varidic = false;
    let mut i: usize = 0;
    while i < args.len()
        invariant
            i <= args@.len(),
            av == args_view(args@),
            strings_view(docs@) == doc_lines(av.take(i as int)),
            strings_view(params@) =~= Seq::new(
                i as nat,
                |j: int|
                    if !av[j].2 {
                        av[j].0 + ": String"@
                    } else {
                        av[j].0 + ": &[String]"@
                    },
            ),
            strings_view(passed@) =~= Seq::new(
                i as nat,
                |j: int|
                    if !av[j].2 {
                        av[j].0
                    } else {
                        ".."@ + av[j].0 + ".to_owned()"@
                    },
            ),
            varidic == exists|j: int| 0 <= j < i && (#[trigger] av[j]).2,
        decreases args.len() - i,
    {
        let a = &args[i];
        assert(av[i as int] == arg_view(*a));
        assert(av.take(i + 1).drop_last() =~= av.take(i as int));
        if !a.desc.as_str().is_empty() {
            let mut d = "/// ".to_owned();
            d.append(a.name.as_str());
            d.append(a.desc.as_str());
            let ghost d0 = strings_view(docs@);
            docs.push(d);
            assert(strings_view(docs@) =~= d0.push(d@));
        }
        let mut p = a.name.clone();
        let mut q;
        if !a.varidic {
            p.append(": String");
            q = a.name.clone();
        } else {
            p.append(": &[String]");
            q = "..".to_owned();
            q.append(a.name.as_str());
            q.append(".to_owned()");
            varidic = true;
        }
        let ghost p0 = strings_view(params@);
        params.push(p);
        assert(strings_view(params@) =~= p0.push(p@));
        let ghost q0 = strings_view(passed@);
        passed.push(q);
        assert(strings_view(passed@) =~= q0.push(q@));
        i += 1;
    }
    assert(av.take(args@.len() as int) =~= av);
    assert(strings_view(params@) =~= av.map_values(
        |a: (Seq<char>, int, bool, Seq<char>)|
            if !a.2 {
                a.0 + ": String"@
            } else {
                a.0 + ": &[String]"@
            },
    ));
    assert(strings_view(passed@) =~= av.map_values(
        |a: (Seq<char>, int, bool, Seq<char>)|
            if !a.2 {
                a.0
            } else {
                ".."@ + a.0 + ".to_owned()"@
            },
    ));
    let text = ty == ShType::Text;
    let doc = join_strings(&docs, "\n");
    let fn_args = join_strings(&params, ", ");
    let cmd_args = if args.len() == 0 {
        String::new()
    } else {
        let mut c = ".args(vec![".to_owned();
        let j = join_strings(&passed, ", ");
        c.append(j.as_str());
        c.append("])");
        c
    };
    let mut r = doc;
    r.append("\n#[allow(dead_code)]\npub fn ");
    r.append(name);
    r.append("(");
    r.append(fn_args.as_str());
    r.append(") -> Res<");
    r.append(if text { "String" } else { "()" });
    r.append("> {\n    ");
    r.append(if varidic { "use velcro::vec;" } else { "" });
    r.append("\n    ");
    r.append(if text { "let r = " } else { "let _ = " });
    r.append("std::process::Command::new(\"");
    r.append(cmd);
    r.append("\")");
    r.append(cmd_args.as_str());
    r.append(".");
    r.append(if text { "output" } else { "status" });
    r.append("().map_err(|e| format!(\"Command '");
    r.append(cmd);
    r.append("' error '{e}'\"))?;\n    ");
    if text {
        r.append("Ok(String::from_utf8(r.stdout).map_err(|e| format!(\"Output of '");
        r.append(cmd);
        r.append("' not valid UTF-8. '{e}'\"))?)");
    } else {
        r.append("Ok(())");
    }
    r.append("\n}\n");
    proof {
        reveal_strlit("");
    }
    assert(""@ =~= Seq::<char>::empty());
    r
}

/// The Rust function that runs a shell script, from the script's lines: named `name`,
/// running `cmd`. The script's metadata gives its kind and its arguments, or the reason
/// that it cannot be read.
pub fn gen_code(lines: &Vec<String>, name: &str, cmd: &str) -> (r: Result<String, GenErr>)
    ensures
        match r {
            Ok(code) => gen_result(strings_view(lines@), name@, cmd@) == Ok::<_, GenErr>(code@),
            Err(e) => gen_result(strings_view(lines@), name@, cmd@) == Err::<Seq<char>, GenErr>(e),
        },
{
    let meta = match metadata_lines(lines) {
        None => {
            return Err(GenErr::MissingTags);
        },
        Some(m) => m,
    };
    if meta.len() == 0 {
        return Err(GenErr::NoTypeLine);
    }
    assert(strings_view(meta@)[0] == meta@[0]@);
    let ty = match type_of_line(meta[0].as_str()) {
        Err(e) => {
            return Err(e);
        },
        Ok(t) => t,
    };
    let args = match args_of_lines(&meta) {
        Err(e) => {
            return Err(e);
        },
        Ok(a) => a,
    };
    match order_check(&args) {
        Some(e) => {
            return Err(e);
        },
        None => {},
    }
    Ok(render_fn(name, cmd, ty, &args))
}

} // verus!
