use fpr_cli::internal::{self, parse_args, EParseArg, EParseArgs, Parse2 as P2};
use fpr_cli::sh::shell_functions;
use fpr_cli::table::print_table;
use fpr_cli::text::{join_strings, str_eq, str_starts_with};
use fpr_cli::{
    positional_args, settle, to_lines, to_table, unknown_args, Acts, Arg, ErrActs, ErrArg,
    ErrArgs, ErrVal, Init, Parse2, ParseCtx, ParsedArgs,
};

struct C;

struct TestArgs2 {
    names: Vec<String>,
}

impl fpr_cli::Args<C> for TestArgs2 {
    fn new(c: &C, args: &mut ParsedArgs) -> Result<Self, ErrArgs> {
        Ok(TestArgs2 {
            names: <Vec<String> as Parse2<'_, '_, C>>::parse2(Init::Unset, "--names", c, args)
                .map_err(|e| ErrArgs::Arg { arg: "--names".into(), e })?,
        })
    }
    fn desc_act() -> &'static str {
        "foo"
    }
    fn add_paths<'a>(pfx: &Vec<Arg<'a>>, p: &mut Vec<Vec<Arg<'a>>>) {
        let mut v = pfx.clone();
        v.push("test-args2");
        p.push(v);
    }
    fn add_usage(c: &C, r: &mut Vec<[String; 4]>) {
        r.push(<Vec<String> as Parse2<'_, '_, C>>::desc2(Init::Unset, "2", "--names", c));
    }
    fn default(_c: &C) -> Self {
        TestArgs2 { names: vec![] }
    }
    fn run(self, _c: &C, r: Vec<&str>) -> Result<(), String> {
        if self.names.iter().any(|n| n == "fail") {
            return Err(format!("failed with {}", r.len()));
        }
        Ok(())
    }
}

#[test]
fn args_run_on_known_options() {
    assert!(<TestArgs2 as fpr_cli::Args<C>>::next_impl(&C, &["--names", "a", "b"]).is_ok());
}

#[test]
fn args_help_takes_precedence() {
    let r = <TestArgs2 as fpr_cli::Args<C>>::next_impl(&C, &["--bogus", "--help", "x"]);
    assert!(matches!(r, Err(ErrArgs::Help)));
}

#[test]
fn args_unknown_options_are_reported() {
    let r = <TestArgs2 as fpr_cli::Args<C>>::next_impl(&C, &["--names", "a", "--other", "1"]);
    match r {
        Err(e @ ErrArgs::Unknown { .. }) => {
            assert_eq!(e.to_string(), "Unknown args '--other, 1'");
        }
        _ => panic!("expected Unknown"),
    }
}

#[test]
fn args_run_errors_are_reported() {
    let r = <TestArgs2 as fpr_cli::Args<C>>::next_impl(&C, &["p", "--names", "fail", "--", "q"]);
    match r {
        Err(ErrArgs::Run { e }) => assert_eq!(e, "failed with 2"),
        _ => panic!("expected Run"),
    }
}

#[test]
fn args_option_errors_are_reported() {
    let r = <TestArgs2 as fpr_cli::Args<C>>::next_impl(&C, &["--names"]);
    match r {
        Err(e @ ErrArgs::Arg { .. }) => assert_eq!(
            e.to_string(),
            "Failed while parsing arg '--names': ''--names' must be one value.'"
        ),
        _ => panic!("expected Arg"),
    }
}

#[test]
fn args_usage() {
    let u = <TestArgs2 as fpr_cli::Args<C>>::usage(&C);
    assert_eq!(u, "--names Vec<String> 2 ");
    let f = <TestArgs2 as fpr_cli::Args<C>>::full_usage(&C, "prog", &["sub"]);
    assert_eq!(f, "Usage: prog sub <opts...>\nOpts:\n--names Vec<String> 2 ");
    let mut s = ParseCtx { prog: "prog", pfx: vec!["sub"] };
    let h = <TestArgs2 as fpr_cli::Args<C>>::next_or_help(&C, &mut s, &["--help"]);
    assert_eq!(h.ok().flatten(), Some(f));
}

struct Main;

impl Acts<C> for Main {
    fn opts() -> Vec<&'static str> {
        vec!["test-args2"]
    }
    fn next_impl<'a>(c: &C, s: &mut ParseCtx<'a>, a: &Arg<'a>, args: &[Arg<'a>]) -> Result<(), ErrActs> {
        match *a {
            "test-args2" => {
                s.pfx.push("test-args2");
                match <TestArgs2 as fpr_cli::Args<C>>::next_or_help(c, s, args)? {
                    Some(_help) => Ok(()),
                    None => Ok(()),
                }
            }
            "help" => Err(ErrActs::Help),
            o => Err(ErrActs::Unknown { act: o.to_owned() }),
        }
    }
    fn desc_act() -> &'static str {
        "main"
    }
    fn usage_v() -> Vec<[&'static str; 2]> {
        vec![["test-args2", "foo"]]
    }
    fn add_paths<'a>(pfx: &Vec<Arg<'a>>, p: &mut Vec<Vec<Arg<'a>>>) {
        <TestArgs2 as fpr_cli::Args<C>>::add_paths(pfx, p);
    }
}

#[test]
fn acts_need_an_action() {
    let mut s = ParseCtx { prog: "prog", pfx: vec![] };
    let r = Main::next_or_help(&C, &mut s, &[]);
    match r {
        Err(e @ ErrActs::Missing) => assert_eq!(e.to_string(), "Expected an act."),
        _ => panic!("expected Missing"),
    }
}

#[test]
fn acts_pick_the_action() {
    let mut s = ParseCtx { prog: "prog", pfx: vec![] };
    assert!(matches!(Main::next_or_help(&C, &mut s, &["test-args2", "--names", "x"]), Ok(None)));
    assert_eq!(s.pfx, vec!["test-args2"]);
    let mut s = ParseCtx { prog: "prog", pfx: vec![] };
    match Main::next_or_help(&C, &mut s, &["nope"]) {
        Err(e @ ErrActs::Unknown { .. }) => assert_eq!(e.to_string(), "Unknown act 'nope'"),
        _ => panic!("expected Unknown"),
    }
    let mut s = ParseCtx { prog: "prog", pfx: vec![] };
    match Main::next_or_help(&C, &mut s, &["help"]) {
        Ok(Some(t)) => assert_eq!(t, "Usage: prog <act>\nActs:\ntest-args2 foo"),
        _ => panic!("expected help"),
    }
}

#[test]
fn acts_list_and_usage() {
    assert_eq!(Main::list(), vec![vec!["test-args2"]]);
    assert_eq!(Main::usage(), "test-args2 foo");
    assert_eq!(Main::full_usage("p", &["a", "b"]), "Usage: p a b <act>\nActs:\ntest-args2 foo");
}

#[test]
fn error_messages() {
    let e = ErrArgs::Arg {
        arg: "--x".into(),
        e: ErrArg::Val {
            arg: "--x".into(),
            e: ErrVal::Value { input: "q".into(), typename: "i32".into(), error: "bad".into() },
        },
    };
    assert_eq!(
        e.to_string(),
        "Failed while parsing arg '--x': 'Failed while parsing values for '--x': Failed to parse 'q' as type 'i32': bad'"
    );
    assert_eq!(ErrArgs::Help.to_string(), "Needs help");
    assert_eq!(ErrActs::Help.to_string(), "Needs help");
    let a: ErrActs = ErrArgs::Run { e: "boom".into() }.into();
    assert_eq!(a.to_string(), "boom");
    assert_eq!(ErrArg::AtLeastOne { arg: "--v".into() }.to_string(), "'--v' requires at least one value.");
}

#[test]
fn unknown_and_positional_tokens() {
    let mut p = ParsedArgs::new(&["a", "--k", "1", "--", "b", "--u", "2"]);
    p.consume("--k");
    let mut u = unknown_args(&p);
    u.sort();
    assert_eq!(u, vec!["--u".to_string(), "2".to_string()]);
    let mut pos = positional_args(&p);
    pos.sort();
    assert_eq!(pos, vec!["a", "b"]);
    match settle(Ok(5), &p) {
        Err(ErrArgs::Unknown { arg }) => assert_eq!(arg.len(), 2),
        _ => panic!("expected Unknown"),
    }
    p.consume("--u");
    match settle(Ok(5), &p) {
        Ok((5, mut pos)) => {
            pos.sort();
            assert_eq!(pos, vec!["a", "b"]);
        }
        _ => panic!("expected Ok"),
    }
    assert!(matches!(settle::<i32>(Err(ErrArgs::Help), &p), Err(ErrArgs::Help)));
}

#[test]
fn tables() {
    let rows = [["a", "bb"], ["ccc", "d"]];
    assert_eq!(to_lines(&rows), vec!["a   bb".to_string(), "ccc d ".to_string()]);
    assert_eq!(to_table(&rows), "a   bb\nccc d ");
    let none: [[&str; 2]; 0] = [];
    assert_eq!(to_lines(&none), Vec::<String>::new());
    assert_eq!(to_table(&none), "");
    let wide = [["日本", "x"], ["a", "y"]];
    assert_eq!(to_lines(&wide), vec!["日本 x".to_string(), "a    y".to_string()]);
}

#[test]
fn two_column_table() {
    let d = vec![("ab".to_string(), "x".to_string()), ("c".to_string(), "yyy".to_string())];
    assert_eq!(print_table(&d), "ab x  \nc  yyy");
    let d = vec![("é".to_string(), "z".to_string()), ("a".to_string(), "z".to_string())];
    assert_eq!(print_table(&d), "é  z\na  z");
}

#[test]
fn text_helpers() {
    assert!(str_eq("abc", "abc"));
    assert!(!str_eq("abc", "abd"));
    assert!(!str_eq("ab", "abc"));
    assert!(str_starts_with("--x", "--"));
    assert!(!str_starts_with("-x", "--"));
    assert!(str_starts_with("", ""));
    assert_eq!(join_strings(&vec!["a".into(), "b".into()], ", "), "a, b");
    assert_eq!(join_strings(&vec![], ", "), "");
}

#[test]
fn shell_script() {
    let cmds = vec![vec!["a".to_string(), "b".to_string()], vec!["c".to_string()]];
    assert_eq!(
        shell_functions("salt", &cmds),
        "#!/bin/bash\n# Generated script\nfunction salt_a_b () { salt a b \"$@\"; } \nfunction salt_c () { salt c \"$@\"; } \n"
    );
}

#[test]
fn index_parser_reads_keys() {
    let args = ["--a", "1", "2", "--b", "3"];
    let mut p = match parse_args(&args) {
        Ok(p) => p,
        Err(_) => panic!("expected a parse"),
    };
    assert_eq!(p.keys.len(), 2);
    assert_eq!(p.consume("--b"), Some(&["3"][..]));
    assert_eq!(p.consume("--a"), Some(&["1", "2"][..]));
    assert_eq!(p.consume("--c"), None);
    assert!(p.keys.iter().all(|k| k.used));
}

#[test]
fn index_parser_errors() {
    assert!(matches!(parse_args(&["x", "--help"]), Err(EParseArgs::Help)));
    match parse_args(&["x", "--a"]) {
        Err(e @ EParseArgs::ExpectedArgStart("x")) => {
            assert_eq!(e.to_string(), "Expected arg start at 'x'")
        }
        _ => panic!("expected ExpectedArgStart"),
    }
    assert!(matches!(parse_args(&["x", "y"]), Ok(_)));
    let e = EParseArgs::UnknownArgs(vec!["a", "b\"c"]);
    assert_eq!(e.to_string(), "Unknown args '[\"a\", \"b\\\"c\"]'");
    let e: EParseArgs = EParseArg { i: "q", ty: "i32", err: "bad".into() }.into();
    assert_eq!(e.to_string(), "Failed to parse 'q' as 'i32' because 'bad'");
}

#[test]
fn index_parser_options() {
    let args = ["--n", "4", "--m", "5", "6", "--v", "1", "2"];
    let mut p = parse_args(&args).ok().unwrap();
    let n = <i32 as P2>::parse_strs(Init::<C, i32>::Unset, "--n", &C, &mut p);
    assert!(matches!(n, Ok(4)));
    let m = <i32 as P2>::parse_strs(Init::<C, i32>::Unset, "--m", &C, &mut p);
    match m {
        Err(e) => assert_eq!(e.err, "Expected only one value for '[\"5\", \"6\"]'."),
        Ok(_) => panic!("expected an error"),
    }
    let v = <Vec<i32> as P2>::parse_strs(Init::<C, Vec<i32>>::Unset, "--v", &C, &mut p);
    assert_eq!(v.ok(), Some(vec![1, 2]));
    let o = <Option<i32> as P2>::parse_strs(Init::<C, i32>::Const(3), "--o", &C, &mut p);
    assert!(matches!(o, Ok(Some(3))));
    let r = <i32 as P2>::parse_strs(Init::<C, i32>::Unset, "--r", &C, &mut p);
    match r {
        Err(e) => assert_eq!(e.err, "'--r' is required."),
        Ok(_) => panic!("expected an error"),
    }
    let d = <Vec<i32> as P2>::desc2(&C, "v", "vals", Init::<C, Vec<i32>>::Const(vec![1, 2]));
    assert_eq!(d, ["--v".to_string(), "Vec<i32>".into(), "vals".into(), " (default: [1, 2])".into()]);
    let d = internal::get_desc(&C, &internal::Desc::from("hello"));
    assert_eq!(d, "hello");
}

#[test]
fn command_outcomes_are_answered() {
    let s = ParseCtx { prog: "prog", pfx: vec!["sub"] };
    assert!(matches!(<TestArgs2 as fpr_cli::Args<C>>::answer(&C, &s, Ok(())), Ok(None)));
    assert_eq!(
        <TestArgs2 as fpr_cli::Args<C>>::answer(&C, &s, Err(ErrArgs::Help)).ok().flatten(),
        Some("Usage: prog sub <opts...>\nOpts:\n--names Vec<String> 2 ".to_string())
    );
    match <TestArgs2 as fpr_cli::Args<C>>::answer(&C, &s, Err(ErrArgs::Run { e: "x".into() })) {
        Err(ErrArgs::Run { e }) => assert_eq!(e, "x"),
        _ => panic!("expected the error to stand"),
    }
}

#[test]
fn menu_outcomes_are_answered() {
    let s = ParseCtx { prog: "prog", pfx: vec!["a"] };
    assert!(matches!(Main::answer(&s, Ok(())), Ok(None)));
    assert_eq!(
        Main::answer(&s, Err(ErrActs::Help)).ok().flatten(),
        Some("Usage: prog a <act>\nActs:\ntest-args2 foo".to_string())
    );
    assert!(matches!(Main::answer(&s, Err(ErrActs::Missing)), Err(ErrActs::Missing)));
}

#[test]
fn index_parser_shows_defaults_as_debug() {
    let d = <Option<String> as P2>::desc2(&C, "--s", "text", Init::<C, String>::Const("a\"b".to_string()));
    assert_eq!(d[3], " (default: \"a\\\"b\")");
    let d = <i32 as P2>::desc2(&C, "--n", "num", Init::<C, i32>::Const(-3));
    assert_eq!(d[3], " (default: -3)");
}
