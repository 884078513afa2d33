use fpr_cli::{DisplayVec, DynInit, ErrArg, ErrVal, Init, OptVec, Parse, Parse2, ParsedArgs, Show};

fn group<'a>(p: &ParsedArgs<'a>, k: Option<&str>) -> Option<(Vec<&'a str>, bool)> {
    p.k.iter().find(|g| g.k == k).map(|g| (g.v.clone(), g.used))
}

#[test]
fn new_groups_tokens_by_preceding_key() {
    let args = ["a", "--x", "1", "2", "--y", "--x", "3"];
    let p = ParsedArgs::new(&args);
    assert_eq!(p.k.len(), 3);
    assert_eq!(group(&p, None), Some((vec!["a"], false)));
    assert_eq!(group(&p, Some("--x")), Some((vec!["1", "2", "--x", "3"], false)));
    assert_eq!(group(&p, Some("--y")), Some((vec![], false)));
}

#[test]
fn new_of_empty_line_has_no_group() {
    let args: [&str; 0] = [];
    let p = ParsedArgs::new(&args);
    assert_eq!(p.k.len(), 0);
}

#[test]
fn new_keeps_every_token() {
    let args = ["p", "q", "--a", "x", "--", "r", "--b", "--a", "y"];
    let p = ParsedArgs::new(&args);
    let count: usize = p.k.iter().map(|g| g.v.len() + if g.k.is_some() { 1 } else { 0 }).sum();
    assert_eq!(count, args.len());
    assert_eq!(group(&p, Some("--")), Some((vec!["r"], false)));
    assert_eq!(group(&p, Some("--a")), Some((vec!["x", "--a", "y"], false)));
    assert_eq!(group(&p, Some("--b")), Some((vec![], false)));
    assert_eq!(group(&p, None), Some((vec!["p", "q"], false)));
}

#[test]
fn consume_marks_the_group_used() {
    let args = ["--n", "4", "--m"];
    let mut p = ParsedArgs::new(&args);
    assert_eq!(p.consume("--n").cloned(), Some(vec!["4"]));
    assert_eq!(group(&p, Some("--n")), Some((vec!["4"], true)));
    assert_eq!(group(&p, Some("--m")), Some((vec![], false)));
    assert_eq!(p.consume("--zzz"), None);
}

#[test]
fn a_key_is_found_exactly_when_it_is_given() {
    let args = ["x", "--a", "1", "--b", "--a"];
    for name in ["--a", "--b", "--c", "--"] {
        let mut p = ParsedArgs::new(&args);
        assert_eq!(p.consume(name).is_some(), args.contains(&name), "{name}");
    }
}

struct Ctx;

struct Seven;
impl DynInit<Ctx, i32> for Seven {
    fn init(&self, _c: &Ctx) -> i32 {
        7
    }
}

fn parse_i32(args: &[&str], i: Init<Ctx, i32>) -> Result<i32, ErrArg> {
    let mut p = ParsedArgs::new(args);
    <i32 as Parse2<'_, '_, Ctx>>::parse2(i, "--n", &Ctx, &mut p)
}

#[test]
fn required_option_reads_its_one_value() {
    assert!(matches!(parse_i32(&["--n", "12"], Init::Unset), Ok(12)));
    assert!(matches!(parse_i32(&["--n", "-3"], Init::Const(1)), Ok(-3)));
}

#[test]
fn required_option_falls_back_on_default() {
    assert!(matches!(parse_i32(&[], Init::Const(5)), Ok(5)));
    assert!(matches!(parse_i32(&["--m", "1"], Init::Dyn(Box::new(Seven))), Ok(7)));
}

#[test]
fn required_option_missing_is_an_error() {
    match parse_i32(&["--m"], Init::Unset) {
        Err(e @ ErrArg::Required { .. }) => assert_eq!(e.to_string(), "'--n' is required."),
        _ => panic!("expected Required"),
    }
}

#[test]
fn required_option_with_two_values_is_an_error() {
    match parse_i32(&["--n", "1", "2"], Init::Unset) {
        Err(e @ ErrArg::OnlyOne { .. }) => assert_eq!(e.to_string(), "'--n' must be one value."),
        _ => panic!("expected OnlyOne"),
    }
    assert!(matches!(parse_i32(&["--n"], Init::Const(3)), Err(ErrArg::OnlyOne { .. })));
}

#[test]
fn required_option_with_bad_value_is_an_error() {
    match parse_i32(&["--n", "abc"], Init::Unset) {
        Err(ErrArg::Val { arg, e: ErrVal::Value { input, typename, .. } }) => {
            assert_eq!(arg, "--n");
            assert_eq!(input, "abc");
            assert_eq!(typename, "i32");
        }
        _ => panic!("expected Val"),
    }
}

#[test]
fn optional_option() {
    let mut p = ParsedArgs::new(&["--o", "x"]);
    let r = <Option<String> as Parse2<'_, '_, Ctx>>::parse2(Init::Unset, "--o", &Ctx, &mut p);
    assert!(matches!(r, Ok(Some(ref s)) if s == "x"));
    let mut p = ParsedArgs::new(&[]);
    let r = <Option<String> as Parse2<'_, '_, Ctx>>::parse2(Init::Unset, "--o", &Ctx, &mut p);
    assert!(matches!(r, Ok(None)));
    let mut p = ParsedArgs::new(&[]);
    let r = <Option<i32> as Parse2<'_, '_, Ctx>>::parse2(Init::Const(9), "--o", &Ctx, &mut p);
    assert!(matches!(r, Ok(Some(9))));
    let mut p = ParsedArgs::new(&["--o"]);
    let r = <Option<i32> as Parse2<'_, '_, Ctx>>::parse2(Init::Const(9), "--o", &Ctx, &mut p);
    assert!(matches!(r, Err(ErrArg::OnlyOne { .. })));
}

#[test]
fn list_option() {
    let mut p = ParsedArgs::new(&["--v", "1", "2", "3"]);
    let r = <Vec<u8> as Parse2<'_, '_, Ctx>>::parse2(Init::Unset, "--v", &Ctx, &mut p);
    assert_eq!(r.ok(), Some(vec![1, 2, 3]));
    let mut p = ParsedArgs::new(&["--v"]);
    let r = <Vec<u8> as Parse2<'_, '_, Ctx>>::parse2(Init::Unset, "--v", &Ctx, &mut p);
    assert!(matches!(r, Err(ErrArg::OnlyOne { .. })));
    let mut p = ParsedArgs::new(&["--v", "1", "300"]);
    let r = <Vec<u8> as Parse2<'_, '_, Ctx>>::parse2(Init::Unset, "--v", &Ctx, &mut p);
    assert!(matches!(r, Err(ErrArg::Val { .. })));
    let mut p = ParsedArgs::new(&[]);
    let r = <Vec<u8> as Parse2<'_, '_, Ctx>>::parse2(
        Init::Const(DisplayVec::from(vec![4, 5])),
        "--v",
        &Ctx,
        &mut p,
    );
    assert_eq!(r.ok(), Some(vec![4, 5]));
    let mut p = ParsedArgs::new(&[]);
    let r = <Vec<u8> as Parse2<'_, '_, Ctx>>::parse2(Init::Unset, "--v", &Ctx, &mut p);
    assert_eq!(r.ok(), Some(vec![]));
}

#[test]
fn optional_list_option() {
    let mut p = ParsedArgs::new(&["--v"]);
    let r = <OptVec<u8> as Parse2<'_, '_, Ctx>>::parse2(Init::Unset, "--v", &Ctx, &mut p);
    assert_eq!(r.ok().map(|v| v.0), Some(vec![]));
    let mut p = ParsedArgs::new(&["--v", "8"]);
    let r = <OptVec<u8> as Parse2<'_, '_, Ctx>>::parse2(Init::Unset, "--v", &Ctx, &mut p);
    assert_eq!(r.ok().map(|v| v.0), Some(vec![8]));
}

#[test]
fn usage_rows_describe_the_option() {
    let r = <i32 as Parse2<'_, '_, Ctx>>::desc2(Init::Const(3), "what", "--n", &Ctx);
    assert_eq!(r, ["--n".to_string(), "Req<i32>".into(), "what".into(), " (default: 3)".into()]);
    let r = <Option<bool> as Parse2<'_, '_, Ctx>>::desc2(Init::Unset, "flag", "--b", &Ctx);
    assert_eq!(r, ["--b".to_string(), "Opt<bool>".into(), "flag".into(), "".into()]);
    let r = <Vec<String> as Parse2<'_, '_, Ctx>>::desc2(
        Init::Const(DisplayVec::from(vec!["a".to_string(), "b".to_string()])),
        "names",
        "--s",
        &Ctx,
    );
    assert_eq!(r, ["--s".to_string(), "Vec<String>".into(), "names".into(), " (default: a, b)".into()]);
}

#[test]
fn defaults_without_command_line() {
    assert_eq!(<i32 as Parse2<'_, '_, Ctx>>::default2(&Ctx, Init::Unset), 0);
    assert_eq!(<i32 as Parse2<'_, '_, Ctx>>::default2(&Ctx, Init::Const(4)), 4);
    assert_eq!(<Option<i32> as Parse2<'_, '_, Ctx>>::default2(&Ctx, Init::Unset), None);
    assert_eq!(
        <Vec<i32> as Parse2<'_, '_, Ctx>>::default2(&Ctx, Init::Const(DisplayVec::from(vec![1]))),
        vec![1]
    );
}

#[test]
fn standard_values_parse() {
    assert!(matches!(<i32 as Parse>::parse("+42"), Ok(42)));
    assert!(matches!(<i8 as Parse>::parse("-128"), Ok(-128)));
    assert!(<i8 as Parse>::parse("128").is_err());
    assert!(<u32 as Parse>::parse("-0").is_err());
    assert!(matches!(<u64 as Parse>::parse("18446744073709551615"), Ok(u64::MAX)));
    assert!(<usize as Parse>::parse("").is_err());
    assert!(<i64 as Parse>::parse(" 1").is_err());
    assert!(matches!(<bool as Parse>::parse("true"), Ok(true)));
    assert!(<bool as Parse>::parse("True").is_err());
    assert!(matches!(<char as Parse>::parse("é"), Ok('é')));
    assert!(<char as Parse>::parse("ab").is_err());
    assert!(matches!(<String as Parse>::parse("x y"), Ok(ref s) if s == "x y"));
    assert_eq!(<u16 as Parse>::desc(), "u16");
}

#[test]
fn value_error_message() {
    match <u8 as Parse>::parse("x") {
        Err(e) => assert_eq!(
            e.to_string(),
            "Failed to parse 'x' as type 'u8': invalid digit found in string"
        ),
        Ok(_) => panic!("expected an error"),
    }
}

#[test]
fn shown_values() {
    assert_eq!(12i32.show(), "12");
    assert_eq!(DisplayVec::from(vec![1u8, 2, 3]).show(), "1, 2, 3");
    assert_eq!(vec![true].show(), "true");
    let v: Vec<u8> = DisplayVec::from(vec![1u8]).into();
    assert_eq!(v, vec![1]);
    let o: OptVec<u8> = DisplayVec::from(vec![2u8]).into();
    assert_eq!(o.0, vec![2]);
}

#[test]
fn integers_show_in_decimal() {
    assert_eq!(0u8.show(), "0");
    assert_eq!((-7i8).show(), "-7");
    assert_eq!(i128::MIN.show(), i128::MIN.to_string());
    assert_eq!(i128::MAX.show(), i128::MAX.to_string());
    assert_eq!(u128::MAX.show(), u128::MAX.to_string());
    assert_eq!(i64::MIN.show(), "-9223372036854775808");
    assert_eq!(usize::MAX.show(), usize::MAX.to_string());
    assert_eq!(100u32.show(), "100");
    assert_eq!(false.show(), "false");
    assert_eq!('\u{e9}'.show(), "\u{e9}");
    assert_eq!(vec!["a".to_string(), "b".to_string()].show(), "a, b");
    assert_eq!(Vec::<i32>::new().show(), "");
}

#[test]
fn shown_integers_read_back() {
    for v in [i64::MIN, -1, 0, 9, 10, i64::MAX] {
        assert_eq!(<i64 as Parse>::parse(&v.show()).ok(), Some(v));
    }
    for v in [0u128, 7, 1000, u128::MAX] {
        assert_eq!(<u128 as Parse>::parse(&v.show()).ok(), Some(v));
    }
    assert_eq!(<i8 as Parse>::parse(&i8::MIN.show()).ok(), Some(i8::MIN));
}
