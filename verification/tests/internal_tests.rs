use fpr_cli::internal::{
    arg_kind, parse_args, picked, Acts, ArgKind, Args, EActs, EActsKind, EParseArgs, IActs, IArgs, ParsedArgs, Run,
};

struct Ctx;

struct Cmd;

impl Args for Cmd {
    fn parse2<'args, 'arg, C>(_c: &C, _a: &mut ParsedArgs<'args, 'arg>) -> Result<Self, EParseArgs<'arg>>
    where
        Self: Run<C>,
    {
        Ok(Cmd)
    }

    fn desc<C>(_c: &C, _r: &mut Vec<[String; 4]>) {}

    fn act_desc() -> &'static str {
        "a command"
    }
}

impl<C> Run<C> for Cmd {
    fn run(_c: &C, _a: Self) -> Result<(), String> {
        Err("ran".to_string())
    }
}

struct Menu;

impl Acts for Menu {
    fn next<'args, 'arg, C>(c: &C, next: &'arg str, next_args: &'args [&'arg str]) -> Result<(), EActs<'arg>> {
        if next == "cmd" {
            <Cmd as IArgs>::parse(c, next_args)
        } else {
            Err(EActs { kind: EActsKind::NotAnAction(next), stack: vec![] })
        }
    }

    fn desc() -> Vec<[&'static str; 2]> {
        vec![["cmd", "a command"]]
    }

    fn act_desc() -> &'static str {
        "a menu"
    }
}

#[test]
fn internal_args_run_without_options() {
    match <Cmd as IArgs>::parse(&Ctx, &[]) {
        Err(EActs { kind: EActsKind::Run(e), stack }) => {
            assert_eq!(e, "ran");
            assert!(stack.is_empty());
        }
        _ => panic!("expected the run's error"),
    }
}

#[test]
fn internal_args_help() {
    assert!(matches!(
        <Cmd as IArgs>::parse(&Ctx, &["x", "--help"]),
        Err(EActs { kind: EActsKind::ParseArgs(EParseArgs::Help), .. })
    ));
}

#[test]
fn internal_args_expected_start() {
    assert!(matches!(
        <Cmd as IArgs>::parse(&Ctx, &["x", "--a"]),
        Err(EActs { kind: EActsKind::ParseArgs(EParseArgs::ExpectedArgStart("x")), .. })
    ));
}

#[test]
fn internal_args_unknown_keys() {
    match <Cmd as IArgs>::parse(&Ctx, &["--a", "1", "--b"]) {
        Err(EActs { kind: EActsKind::ParseArgs(EParseArgs::UnknownArgs(u)), stack }) => {
            assert_eq!(u, vec!["--a", "--b"]);
            assert!(stack.is_empty());
        }
        _ => panic!("expected unknown keys"),
    }
}

#[test]
fn internal_acts_need_an_action() {
    match <Menu as IActs>::parse(&Ctx, &[]) {
        Err(EActs { kind: EActsKind::ExpectedAnAction, stack }) => assert!(stack.is_empty()),
        _ => panic!("expected ExpectedAnAction"),
    }
}

#[test]
fn internal_acts_record_the_path() {
    match <Menu as IActs>::parse(&Ctx, &["cmd", "--z"]) {
        Err(EActs { kind: EActsKind::ParseArgs(EParseArgs::UnknownArgs(u)), stack }) => {
            assert_eq!(u, vec!["--z"]);
            assert_eq!(stack, vec!["cmd"]);
        }
        _ => panic!("expected unknown keys"),
    }
    match <Menu as IActs>::parse(&Ctx, &["nope"]) {
        Err(EActs { kind: EActsKind::NotAnAction("nope"), stack }) => assert_eq!(stack, vec!["nope"]),
        _ => panic!("expected NotAnAction"),
    }
}

#[test]
fn internal_error_conversions() {
    let e: EActs = EParseArgs::Help.into();
    assert!(matches!(e.kind, EActsKind::ParseArgs(EParseArgs::Help)));
    assert!(e.stack.is_empty());
    let e: EActs = String::from("boom").into();
    assert!(matches!(e.kind, EActsKind::Run(ref s) if s == "boom"));
}

#[test]
fn internal_field_kinds() {
    assert!(matches!(
        arg_kind(Some("name"), "String", Some("the name"), Some("Init::None")),
        ArgKind::Arg("name", "String", "the name", "Init::None")
    ));
    assert!(matches!(
        arg_kind::<&str, &str, &str, &str>(Some("sub"), "Sub", None, None),
        ArgKind::Args("sub", "Sub")
    ));
    match arg_kind::<&str, &str, &str, &str>(None, "T", None, None) {
        ArgKind::KindErr(m) => assert_eq!(m, "Field does not have an identifier"),
        _ => panic!("expected a mistake"),
    }
    match arg_kind::<&str, &str, &str, &str>(Some("x"), "T", Some("d"), None) {
        ArgKind::KindErr(m) => assert_eq!(
            m,
            "You must defind both 'desc' and 'i' for an Arg. Otherwise, do not define anything."
        ),
        _ => panic!("expected a mistake"),
    }
}

#[test]
fn internal_key_is_found_exactly_when_it_is_given() {
    let args = ["--a", "1", "--b", "--a"];
    for name in ["--a", "--b", "--c"] {
        let mut p = parse_args(&args).ok().unwrap();
        assert_eq!(p.consume(name).is_some(), args.contains(&name), "{name}");
    }
}

#[test]
fn internal_picked_outcomes() {
    assert!(picked(Ok(()), "a").is_ok());
    let inner = Err(EActs { kind: EActsKind::NotAnAction("z"), stack: vec!["y"] });
    match picked(inner, "a") {
        Err(EActs { kind: EActsKind::NotAnAction("z"), stack }) => assert_eq!(stack, vec!["y", "a"]),
        _ => panic!("expected the kind kept and the stack extended"),
    }
}
