//! Reading values of the standard types from a token, and showing them.
use vstd::prelude::*;

use crate::{ErrVal, Parse, Show};

verus! {

/// A decimal digit.
pub open spec fn is_digit(c: char) -> bool {
    '0' <= c && c <= '9'
}

/// The value of a non-empty run of decimal digits.
pub open spec fn digits_value(s: Seq<char>) -> int
    decreases s.len(),
{
    if s.len() == 0 {
        0
    } else {
        digits_value(s.drop_last()) * 10 + (s.last() as int - '0' as int)
    }
}

/// Every character is a decimal digit.
pub open spec fn all_digits(b: Seq<char>) -> bool {
    forall|i: int| 0 <= i < b.len() ==> is_digit(#[trigger] b[i])
}

/// The sign that leads `s`, if one is allowed there: `+`, or `-` where `signed`.
pub open spec fn has_sign(s: Seq<char>, signed: bool) -> bool {
    s.len() > 0 && (s[0] == '+' || (signed && s[0] == '-'))
}

/// The integer that `s` spells in decimal: an optional sign (`+`, or `-` where `signed`)
/// followed by one or more digits and nothing else.
pub open spec fn decimal(s: Seq<char>, signed: bool) -> Option<int> {
    let body = if has_sign(s, signed) { s.drop_first() } else { s };
    if body.len() > 0 && all_digits(body) {
        Some(if signed && s.len() > 0 && s[0] == '-' { -digits_value(body) } else { digits_value(body) })
    } else {
        None
    }
}

/// A run of digits has a value of at least zero.
pub proof fn lemma_digits_value_nonneg(s: Seq<char>)
    requires
        all_digits(s),
    ensures
        digits_value(s) >= 0,
    decreases s.len(),
{
    if s.len() > 0 {
        assert(all_digits(s.drop_last())) by {
            assert(forall|i: int| 0 <= i < s.len() - 1 ==> s.drop_last()[i] == s[i]);
        }
        lemma_digits_value_nonneg(s.drop_last());
    }
}

/// Without a sign allowed, the integer spelled is at least zero.
pub proof fn lemma_unsigned_nonneg(s: Seq<char>)
    ensures
        decimal(s, false) matches Some(v) ==> v >= 0,
{
    let body = if has_sign(s, false) { s.drop_first() } else { s };
    if body.len() > 0 && all_digits(body) {
        lemma_digits_value_nonneg(body);
    }
}

/// `s` spells an integer in `[lo, hi]`, and it is `v`.
pub open spec fn spells_int(s: Seq<char>, signed: bool, lo: int, hi: int, v: int) -> bool {
    decimal(s, signed) == Some(v) && lo <= v <= hi
}

/// `s` spells an integer in `[lo, hi]`.
pub open spec fn spells_int_in(s: Seq<char>, signed: bool, lo: int, hi: int) -> bool {
    decimal(s, signed) matches Some(v) && lo <= v <= hi
}

/// The character of decimal digit `d`.
pub open spec fn digit_char(d: int) -> char {
    (('0' as int) + d) as char
}

/// The decimal digits of `n`, most significant first, without leading zeros.
pub open spec fn nat_text(n: nat) -> Seq<char>
    decreases n,
{
    if n < 10 {
        seq![digit_char(n as int)]
    } else {
        nat_text(n / 10).push(digit_char((n % 10) as int))
    }
}

/// The decimal text of `v`: its digits, after `-` when it is negative.
pub open spec fn int_text(v: int) -> Seq<char> {
    if v < 0 {
        seq!['-'] + nat_text((-v) as nat)
    } else {
        nat_text(v as nat)
    }
}

/// The decimal text of a natural number is a run of digits that spells it.
proof fn lemma_nat_text(n: nat)
    ensures
        nat_text(n).len() > 0,
        all_digits(nat_text(n)),
        digits_value(nat_text(n)) == n,
    decreases n,
{
    if n < 10 {
        let s = nat_text(n);
        assert(digit_char(n as int) as int == '0' as int + n);
        assert(s.drop_last() =~= Seq::<char>::empty());
        assert(digits_value(s.drop_last()) == 0);
        assert(s.last() == digit_char(n as int));
    } else {
        let q = n / 10;
        let d = n % 10;
        lemma_nat_text(q);
        let s = nat_text(n);
        assert(s.drop_last() =~= nat_text(q));
        assert(digit_char(d as int) as int == '0' as int + d);
        assert(q * 10 + d == n) by (nonlinear_arith)
            requires
                q == n / 10,
                d == n % 10,
        ;
        assert(s.last() == digit_char(d as int));
        assert(digits_value(s) == digits_value(nat_text(q)) * 10 + d);
        assert forall|i: int| 0 <= i < s.len() implies is_digit(#[trigger] s[i]) by {
            if i < s.len() - 1 {
                assert(s[i] == nat_text(q)[i]);
            }
        }
    }
}

/// What an integer is shown as reads back as that integer: as a signed type always, and as
/// an unsigned type when it is not negative.
pub proof fn lemma_text_reads_back(v: int, signed: bool)
    requires
        signed || v >= 0,
    ensures
        decimal(int_text(v), signed) == Some(v),
{
    if v < 0 {
        let n = (-v) as nat;
        lemma_nat_text(n);
        let s = int_text(v);
        assert(has_sign(s, signed));
        assert(s.drop_first() =~= nat_text(n));
    } else {
        lemma_nat_text(v as nat);
        let s = int_text(v);
        assert(is_digit(s[0]));
        assert(!has_sign(s, signed));
    }
}

/// The text of one decimal digit.
fn digit_str(d: u8) -> (r: &'static str)
    requires
        d < 10,
    ensures
        r@ == seq![digit_char(d as int)],
{
    proof {
        reveal_strlit("0");
        reveal_strlit("1");
        reveal_strlit("2");
        reveal_strlit("3");
        reveal_strlit("4");
        reveal_strlit("5");
        reveal_strlit("6");
        reveal_strlit("7");
        reveal_strlit("8");
        reveal_strlit("9");
    }
    match d {
        0 => "0",
        1 => "1",
        2 => "2",
        3 => "3",
        4 => "4",
        5 => "5",
        6 => "6",
        7 => "7",
        8 => "8",
        _ => "9",
    }
}

/// The decimal text of an unsigned integer.
pub fn unsigned_text(v: u128) -> (r: String)
    ensures
        r@ == nat_text(v as nat),
{
    let mut n: u128 = v;
    let mut ds: Vec<u8> = Vec::new();
    while n >= 10
        invariant
            forall|k: int| 0 <= k < ds@.len() ==> #[trigger] ds@[k] < 10,
            nat_text(v as nat) == nat_text(n as nat) + ds@.map_values(|d: u8| digit_char(d as int)),
        decreases n,
    {
        let d = (n % 10) as u8;
        let ghost before = ds@;
        ds.insert(0, d);
        assert(ds@.map_values(|x: u8| digit_char(x as int)) =~= seq![digit_char(d as int)]
            + before.map_values(|x: u8| digit_char(x as int)));
        assert(nat_text(n as nat) == nat_text((n / 10) as nat).push(digit_char(d as int)));
        assert(nat_text(n as nat) + before.map_values(|x: u8| digit_char(x as int)) =~= nat_text(
            (n / 10) as nat,
        ) + ds@.map_values(|x: u8| digit_char(x as int)));
        n = n / 10;
    }
    let ghost tail = ds@.map_values(|x: u8| digit_char(x as int));
    let mut r = digit_str(n as u8).to_owned();
    let mut j: usize = 0;
    while j < ds.len()
        invariant
            j <= ds@.len(),
            n < 10,
            forall|k: int| 0 <= k < ds@.len() ==> #[trigger] ds@[k] < 10,
            tail == ds@.map_values(|x: u8| digit_char(x as int)),
            r@ == seq![digit_char(n as int)] + tail.take(j as int),
        decreases ds.len() - j,
    {
        let piece = digit_str(ds[j]);
        let ghost r0 = r@;
        r.append(piece);
        assert(tail.take(j + 1) =~= tail.take(j as int).push(digit_char(ds@[j as int] as int)));
        assert(r@ =~= seq![digit_char(n as int)] + tail.take(j + 1));
        j += 1;
    }
    assert(tail.take(ds@.len() as int) =~= tail);
    assert(nat_text(n as nat) == seq![digit_char(n as int)]);
    r
}

/// The decimal text of a signed integer.
pub fn signed_text(v: i128) -> (r: String)
    ensures
        r@ == int_text(v as int),
{
    if v < 0 {
        let m: u128 = ((-(v + 1)) as u128) + 1;
        assert(m as int == -(v as int));
        let t = unsigned_text(m);
        let mut r = "-".to_owned();
        proof {
            reveal_strlit("-");
        }
        r.append(t.as_str());
        r
    } else {
        unsigned_text(v as u128)
    }
}

/// The error of a value that failed to parse.
fn value_error(i: &str, typename: &str, error: String) -> (r: ErrVal)
    ensures
        r matches ErrVal::Value { input, typename: t, error: e } && input@ == i@ && t@
            == typename@ && e == error,
{
    ErrVal::Value { input: i.to_owned(), typename: typename.to_owned(), error }
}

/// Why a token read as a path of one kind is refused, from what the file system said of
/// the path: a missing path first, then one of the other kind; nothing when it is fine.
pub open spec fn path_problem(exists: bool, of_kind: bool, not_kind: Seq<char>) -> Option<
    Seq<char>,
> {
    if !exists {
        Some("Does not exist"@)
    } else if !of_kind {
        Some(not_kind)
    } else {
        None
    }
}

/// Judges a path given as a `FileExist` value, from whether it exists and is a file.
pub fn file_exist_check(i: &str, exists: bool, is_file: bool) -> (r: Result<(), ErrVal>)
    ensures
        r is Ok <==> path_problem(exists, is_file, "Not a file"@) is None,
        r matches Err(ErrVal::Value { input, typename, error }) ==> input@ == i@ && typename@
            == "FileExist"@ && Some(error@) == path_problem(exists, is_file, "Not a file"@),
{
    if !exists {
        return Err(value_error(i, "FileExist", "Does not exist".to_owned()));
    }
    if !is_file {
        return Err(value_error(i, "FileExist", "Not a file".to_owned()));
    }
    Ok(())
}

/// Judges a path given as a `DirExist` value, from whether it exists and is a directory.
pub fn dir_exist_check(i: &str, exists: bool, is_dir: bool) -> (r: Result<(), ErrVal>)
    ensures
        r is Ok <==> path_problem(exists, is_dir, "Not a dir"@) is None,
        r matches Err(ErrVal::Value { input, typename, error }) ==> input@ == i@ && typename@
            == "DirExist"@ && Some(error@) == path_problem(exists, is_dir, "Not a dir"@),
{
    if !exists {
        return Err(value_error(i, "DirExist", "Does not exist".to_owned()));
    }
    if !is_dir {
        return Err(value_error(i, "DirExist", "Not a dir".to_owned()));
    }
    Ok(())
}


/// `<i8 as FromStr>::from_str`: claimed, as its documentation states, to succeed exactly
/// when `s` is an optional sign and one or more decimal digits
/// whose value fits in `i8`, and then to give that value. The error's text, from
/// `ParseIntError`'s `Display`, is left unsaid.
#[verifier::external_body]
fn parse_i8(s: &str) -> (r: Result<i8, String>)
    ensures
        r is Ok <==> spells_int_in(s@, true, i8::MIN as int, i8::MAX as int),
        r matches Ok(v) ==> spells_int(s@, true, i8::MIN as int, i8::MAX as int, v as int),
{
    <i8 as std::str::FromStr>::from_str(s).map_err(|e| format!("{e}"))
}

impl<'a> Parse<'a> for i8 {
    /// What reading a token gives.
    open spec fn reads(i: Seq<char>, r: Result<Self, ErrVal>) -> bool {
        &&& r is Ok <==> spells_int_in(i, true, i8::MIN as int, i8::MAX as int)
        &&& r matches Ok(v) ==> spells_int(i, true, i8::MIN as int, i8::MAX as int, v as int)
        &&& r matches Err(ErrVal::Value { input, typename, .. }) ==> input@ == i && typename@ == "i8"@
    }

    /// A decimal integer that fits in the type.
    fn parse(i: &'a str) -> (r: Result<Self, ErrVal>) {
        match parse_i8(i) {
            Ok(v) => Ok(v),
            Err(e) => Err(value_error(i, "i8", e)),
        }
    }

    open spec fn described_as(t: Seq<char>) -> bool {
        t == "i8"@
    }

    fn desc() -> (r: &'static str) {
        "i8"
    }
}

impl Show for i8 {
    /// In decimal.
    open spec fn shows(&self, t: Seq<char>) -> bool {
        t == int_text(*self as int)
    }

    fn show(&self) -> (r: String) {
        signed_text(*self as i128)
    }
}

/// `<i16 as FromStr>::from_str`: claimed, as its documentation states, to succeed exactly
/// when `s` is an optional sign and one or more decimal digits
/// whose value fits in `i16`, and then to give that value. The error's text, from
/// `ParseIntError`'s `Display`, is left unsaid.
#[verifier::external_body]
fn parse_i16(s: &str) -> (r: Result<i16, String>)
    ensures
        r is Ok <==> spells_int_in(s@, true, i16::MIN as int, i16::MAX as int),
        r matches Ok(v) ==> spells_int(s@, true, i16::MIN as int, i16::MAX as int, v as int),
{
    <i16 as std::str::FromStr>::from_str(s).map_err(|e| format!("{e}"))
}

impl<'a> Parse<'a> for i16 {
    /// What reading a token gives.
    open spec fn reads(i: Seq<char>, r: Result<Self, ErrVal>) -> bool {
        &&& r is Ok <==> spells_int_in(i, true, i16::MIN as int, i16::MAX as int)
        &&& r matches Ok(v) ==> spells_int(i, true, i16::MIN as int, i16::MAX as int, v as int)
        &&& r matches Err(ErrVal::Value { input, typename, .. }) ==> input@ == i && typename@ == "i16"@
    }

    /// A decimal integer that fits in the type.
    fn parse(i: &'a str) -> (r: Result<Self, ErrVal>) {
        match parse_i16(i) {
            Ok(v) => Ok(v),
            Err(e) => Err(value_error(i, "i16", e)),
        }
    }

    open spec fn described_as(t: Seq<char>) -> bool {
        t == "i16"@
    }

    fn desc() -> (r: &'static str) {
        "i16"
    }
}

impl Show for i16 {
    /// In decimal.
    open spec fn shows(&self, t: Seq<char>) -> bool {
        t == int_text(*self as int)
    }

    fn show(&self) -> (r: String) {
        signed_text(*self as i128)
    }
}

/// `<i32 as FromStr>::from_str`: claimed, as its documentation states, to succeed exactly
/// when `s` is an optional sign and one or more decimal digits
/// whose value fits in `i32`, and then to give that value. The error's text, from
/// `ParseIntError`'s `Display`, is left unsaid.
#[verifier::external_body]
pub(crate) fn parse_i32(s: &str) -> (r: Result<i32, String>)
    ensures
        r is Ok <==> spells_int_in(s@, true, i32::MIN as int, i32::MAX as int),
        r matches Ok(v) ==> spells_int(s@, true, i32::MIN as int, i32::MAX as int, v as int),
{
    <i32 as std::str::FromStr>::from_str(s).map_err(|e| format!("{e}"))
}

impl<'a> Parse<'a> for i32 {
    /// What reading a token gives.
    open spec fn reads(i: Seq<char>, r: Result<Self, ErrVal>) -> bool {
        &&& r is Ok <==> spells_int_in(i, true, i32::MIN as int, i32::MAX as int)
        &&& r matches Ok(v) ==> spells_int(i, true, i32::MIN as int, i32::MAX as int, v as int)
        &&& r matches Err(ErrVal::Value { input, typename, .. }) ==> input@ == i && typename@ == "i32"@
    }

    /// A decimal integer that fits in the type.
    fn parse(i: &'a str) -> (r: Result<Self, ErrVal>) {
        match parse_i32(i) {
            Ok(v) => Ok(v),
            Err(e) => Err(value_error(i, "i32", e)),
        }
    }

    open spec fn described_as(t: Seq<char>) -> bool {
        t == "i32"@
    }

    fn desc() -> (r: &'static str) {
        "i32"
    }
}

impl Show for i32 {
    /// In decimal.
    open spec fn shows(&self, t: Seq<char>) -> bool {
        t == int_text(*self as int)
    }

    fn show(&self) -> (r: String) {
        signed_text(*self as i128)
    }
}

/// `<i64 as FromStr>::from_str`: claimed, as its documentation states, to succeed exactly
/// when `s` is an optional sign and one or more decimal digits
/// whose value fits in `i64`, and then to give that value. The error's text, from
/// `ParseIntError`'s `Display`, is left unsaid.
#[verifier::external_body]
fn parse_i64(s: &str) -> (r: Result<i64, String>)
    ensures
        r is Ok <==> spells_int_in(s@, true, i64::MIN as int, i64::MAX as int),
        r matches Ok(v) ==> spells_int(s@, true, i64::MIN as int, i64::MAX as int, v as int),
{
    <i64 as std::str::FromStr>::from_str(s).map_err(|e| format!("{e}"))
}

impl<'a> Parse<'a> for i64 {
    /// What reading a token gives.
    open spec fn reads(i: Seq<char>, r: Result<Self, ErrVal>) -> bool {
        &&& r is Ok <==> spells_int_in(i, true, i64::MIN as int, i64::MAX as int)
        &&& r matches Ok(v) ==> spells_int(i, true, i64::MIN as int, i64::MAX as int, v as int)
        &&& r matches Err(ErrVal::Value { input, typename, .. }) ==> input@ == i && typename@ == "i64"@
    }

    /// A decimal integer that fits in the type.
    fn parse(i: &'a str) -> (r: Result<Self, ErrVal>) {
        match parse_i64(i) {
            Ok(v) => Ok(v),
            Err(e) => Err(value_error(i, "i64", e)),
        }
    }

    open spec fn described_as(t: Seq<char>) -> bool {
        t == "i64"@
    }

    fn desc() -> (r: &'static str) {
        "i64"
    }
}

impl Show for i64 {
    /// In decimal.
    open spec fn shows(&self, t: Seq<char>) -> bool {
        t == int_text(*self as int)
    }

    fn show(&self) -> (r: String) {
        signed_text(*self as i128)
    }
}

/// `<i128 as FromStr>::from_str`: claimed, as its documentation states, to succeed exactly
/// when `s` is an optional sign and one or more decimal digits
/// whose value fits in `i128`, and then to give that value. The error's text, from
/// `ParseIntError`'s `Display`, is left unsaid.
#[verifier::external_body]
fn parse_i128(s: &str) -> (r: Result<i128, String>)
    ensures
        r is Ok <==> spells_int_in(s@, true, i128::MIN as int, i128::MAX as int),
        r matches Ok(v) ==> spells_int(s@, true, i128::MIN as int, i128::MAX as int, v as int),
{
    <i128 as std::str::FromStr>::from_str(s).map_err(|e| format!("{e}"))
}

impl<'a> Parse<'a> for i128 {
    /// What reading a token gives.
    open spec fn reads(i: Seq<char>, r: Result<Self, ErrVal>) -> bool {
        &&& r is Ok <==> spells_int_in(i, true, i128::MIN as int, i128::MAX as int)
        &&& r matches Ok(v) ==> spells_int(i, true, i128::MIN as int, i128::MAX as int, v as int)
        &&& r matches Err(ErrVal::Value { input, typename, .. }) ==> input@ == i && typename@ == "i128"@
    }

    /// A decimal integer that fits in the type.
    fn parse(i: &'a str) -> (r: Result<Self, ErrVal>) {
        match parse_i128(i) {
            Ok(v) => Ok(v),
            Err(e) => Err(value_error(i, "i128", e)),
        }
    }

    open spec fn described_as(t: Seq<char>) -> bool {
        t == "i128"@
    }

    fn desc() -> (r: &'static str) {
        "i128"
    }
}

impl Show for i128 {
    /// In decimal.
    open spec fn shows(&self, t: Seq<char>) -> bool {
        t == int_text(*self as int)
    }

    fn show(&self) -> (r: String) {
        signed_text(*self as i128)
    }
}

/// `<isize as FromStr>::from_str`: claimed, as its documentation states, to succeed exactly
/// when `s` is an optional sign and one or more decimal digits
/// whose value fits in `isize`, and then to give that value. The error's text, from
/// `ParseIntError`'s `Display`, is left unsaid.
#[verifier::external_body]
fn parse_isize(s: &str) -> (r: Result<isize, String>)
    ensures
        r is Ok <==> spells_int_in(s@, true, isize::MIN as int, isize::MAX as int),
        r matches Ok(v) ==> spells_int(s@, true, isize::MIN as int, isize::MAX as int, v as int),
{
    <isize as std::str::FromStr>::from_str(s).map_err(|e| format!("{e}"))
}

impl<'a> Parse<'a> for isize {
    /// What reading a token gives.
    open spec fn reads(i: Seq<char>, r: Result<Self, ErrVal>) -> bool {
        &&& r is Ok <==> spells_int_in(i, true, isize::MIN as int, isize::MAX as int)
        &&& r matches Ok(v) ==> spells_int(i, true, isize::MIN as int, isize::MAX as int, v as int)
        &&& r matches Err(ErrVal::Value { input, typename, .. }) ==> input@ == i && typename@ == "isize"@
    }

    /// A decimal integer that fits in the type.
    fn parse(i: &'a str) -> (r: Result<Self, ErrVal>) {
        match parse_isize(i) {
            Ok(v) => Ok(v),
            Err(e) => Err(value_error(i, "isize", e)),
        }
    }

    open spec fn described_as(t: Seq<char>) -> bool {
        t == "isize"@
    }

    fn desc() -> (r: &'static str) {
        "isize"
    }
}

impl Show for isize {
    /// In decimal.
    open spec fn shows(&self, t: Seq<char>) -> bool {
        t == int_text(*self as int)
    }

    fn show(&self) -> (r: String) {
        signed_text(*self as i128)
    }
}

/// `<u8 as FromStr>::from_str`: claimed, as its documentation states, to succeed exactly
/// when `s` is an optional sign (`+` only) and one or more decimal digits
/// whose value fits in `u8`, and then to give that value. The error's text, from
/// `ParseIntError`'s `Display`, is left unsaid.
#[verifier::external_body]
fn parse_u8(s: &str) -> (r: Result<u8, String>)
    ensures
        r is Ok <==> spells_int_in(s@, false, u8::MIN as int, u8::MAX as int),
        r matches Ok(v) ==> spells_int(s@, false, u8::MIN as int, u8::MAX as int, v as int),
{
    <u8 as std::str::FromStr>::from_str(s).map_err(|e| format!("{e}"))
}

impl<'a> Parse<'a> for u8 {
    /// What reading a token gives.
    open spec fn reads(i: Seq<char>, r: Result<Self, ErrVal>) -> bool {
        &&& r is Ok <==> spells_int_in(i, false, u8::MIN as int, u8::MAX as int)
        &&& r matches Ok(v) ==> spells_int(i, false, u8::MIN as int, u8::MAX as int, v as int)
        &&& r matches Err(ErrVal::Value { input, typename, .. }) ==> input@ == i && typename@ == "u8"@
    }

    /// A decimal integer that fits in the type.
    fn parse(i: &'a str) -> (r: Result<Self, ErrVal>) {
        match parse_u8(i) {
            Ok(v) => Ok(v),
            Err(e) => Err(value_error(i, "u8", e)),
        }
    }

    open spec fn described_as(t: Seq<char>) -> bool {
        t == "u8"@
    }

    fn desc() -> (r: &'static str) {
        "u8"
    }
}

impl Show for u8 {
    /// In decimal.
    open spec fn shows(&self, t: Seq<char>) -> bool {
        t == int_text(*self as int)
    }

    fn show(&self) -> (r: String) {
        unsigned_text(*self as u128)
    }
}

/// `<u16 as FromStr>::from_str`: claimed, as its documentation states, to succeed exactly
/// when `s` is an optional sign (`+` only) and one or more decimal digits
/// whose value fits in `u16`, and then to give that value. The error's text, from
/// `ParseIntError`'s `Display`, is left unsaid.
#[verifier::external_body]
fn parse_u16(s: &str) -> (r: Result<u16, String>)
    ensures
        r is Ok <==> spells_int_in(s@, false, u16::MIN as int, u16::MAX as int),
        r matches Ok(v) ==> spells_int(s@, false, u16::MIN as int, u16::MAX as int, v as int),
{
    <u16 as std::str::FromStr>::from_str(s).map_err(|e| format!("{e}"))
}

impl<'a> Parse<'a> for u16 {
    /// What reading a token gives.
    open spec fn reads(i: Seq<char>, r: Result<Self, ErrVal>) -> bool {
        &&& r is Ok <==> spells_int_in(i, false, u16::MIN as int, u16::MAX as int)
        &&& r matches Ok(v) ==> spells_int(i, false, u16::MIN as int, u16::MAX as int, v as int)
        &&& r matches Err(ErrVal::Value { input, typename, .. }) ==> input@ == i && typename@ == "u16"@
    }

    /// A decimal integer that fits in the type.
    fn parse(i: &'a str) -> (r: Result<Self, ErrVal>) {
        match parse_u16(i) {
            Ok(v) => Ok(v),
            Err(e) => Err(value_error(i, "u16", e)),
        }
    }

    open spec fn described_as(t: Seq<char>) -> bool {
        t == "u16"@
    }

    fn desc() -> (r: &'static str) {
        "u16"
    }
}

impl Show for u16 {
    /// In decimal.
    open spec fn shows(&self, t: Seq<char>) -> bool {
        t == int_text(*self as int)
    }

    fn show(&self) -> (r: String) {
        unsigned_text(*self as u128)
    }
}

/// `<u32 as FromStr>::from_str`: claimed, as its documentation states, to succeed exactly
/// when `s` is an optional sign (`+` only) and one or more decimal digits
/// whose value fits in `u32`, and then to give that value. The error's text, from
/// `ParseIntError`'s `Display`, is left unsaid.
#[verifier::external_body]
fn parse_u32(s: &str) -> (r: Result<u32, String>)
    ensures
        r is Ok <==> spells_int_in(s@, false, u32::MIN as int, u32::MAX as int),
        r matches Ok(v) ==> spells_int(s@, false, u32::MIN as int, u32::MAX as int, v as int),
{
    <u32 as std::str::FromStr>::from_str(s).map_err(|e| format!("{e}"))
}

impl<'a> Parse<'a> for u32 {
    /// What reading a token gives.
    open spec fn reads(i: Seq<char>, r: Result<Self, ErrVal>) -> bool {
        &&& r is Ok <==> spells_int_in(i, false, u32::MIN as int, u32::MAX as int)
        &&& r matches Ok(v) ==> spells_int(i, false, u32::MIN as int, u32::MAX as int, v as int)
        &&& r matches Err(ErrVal::Value { input, typename, .. }) ==> input@ == i && typename@ == "u32"@
    }

    /// A decimal integer that fits in the type.
    fn parse(i: &'a str) -> (r: Result<Self, ErrVal>) {
        match parse_u32(i) {
            Ok(v) => Ok(v),
            Err(e) => Err(value_error(i, "u32", e)),
        }
    }

    open spec fn described_as(t: Seq<char>) -> bool {
        t == "u32"@
    }

    fn desc() -> (r: &'static str) {
        "u32"
    }
}

impl Show for u32 {
    /// In decimal.
    open spec fn shows(&self, t: Seq<char>) -> bool {
        t == int_text(*self as int)
    }

    fn show(&self) -> (r: String) {
        unsigned_text(*self as u128)
    }
}

/// `<u64 as FromStr>::from_str`: claimed, as its documentation states, to succeed exactly
/// when `s` is an optional sign (`+` only) and one or more decimal digits
/// whose value fits in `u64`, and then to give that value. The error's text, from
/// `ParseIntError`'s `Display`, is left unsaid.
#[verifier::external_body]
fn parse_u64(s: &str) -> (r: Result<u64, String>)
    ensures
        r is Ok <==> spells_int_in(s@, false, u64::MIN as int, u64::MAX as int),
        r matches Ok(v) ==> spells_int(s@, false, u64::MIN as int, u64::MAX as int, v as int),
{
    <u64 as std::str::FromStr>::from_str(s).map_err(|e| format!("{e}"))
}

impl<'a> Parse<'a> for u64 {
    /// What reading a token gives.
    open spec fn reads(i: Seq<char>, r: Result<Self, ErrVal>) -> bool {
        &&& r is Ok <==> spells_int_in(i, false, u64::MIN as int, u64::MAX as int)
        &&& r matches Ok(v) ==> spells_int(i, false, u64::MIN as int, u64::MAX as int, v as int)
        &&& r matches Err(ErrVal::Value { input, typename, .. }) ==> input@ == i && typename@ == "u64"@
    }

    /// A decimal integer that fits in the type.
    fn parse(i: &'a str) -> (r: Result<Self, ErrVal>) {
        match parse_u64(i) {
            Ok(v) => Ok(v),
            Err(e) => Err(value_error(i, "u64", e)),
        }
    }

    open spec fn described_as(t: Seq<char>) -> bool {
        t == "u64"@
    }

    fn desc() -> (r: &'static str) {
        "u64"
    }
}

impl Show for u64 {
    /// In decimal.
    open spec fn shows(&self, t: Seq<char>) -> bool {
        t == int_text(*self as int)
    }

    fn show(&self) -> (r: String) {
        unsigned_text(*self as u128)
    }
}

/// `<u128 as FromStr>::from_str`: claimed, as its documentation states, to succeed exactly
/// when `s` is an optional sign (`+` only) and one or more decimal digits
/// whose value fits in `u128`, and then to give that value. The error's text, from
/// `ParseIntError`'s `Display`, is left unsaid.
#[verifier::external_body]
fn parse_u128(s: &str) -> (r: Result<u128, String>)
    ensures
        r is Ok <==> spells_int_in(s@, false, u128::MIN as int, u128::MAX as int),
        r matches Ok(v) ==> spells_int(s@, false, u128::MIN as int, u128::MAX as int, v as int),
{
    <u128 as std::str::FromStr>::from_str(s).map_err(|e| format!("{e}"))
}

impl<'a> Parse<'a> for u128 {
    /// What reading a token gives.
    open spec fn reads(i: Seq<char>, r: Result<Self, ErrVal>) -> bool {
        &&& r is Ok <==> spells_int_in(i, false, u128::MIN as int, u128::MAX as int)
        &&& r matches Ok(v) ==> spells_int(i, false, u128::MIN as int, u128::MAX as int, v as int)
        &&& r matches Err(ErrVal::Value { input, typename, .. }) ==> input@ == i && typename@ == "u128"@
    }

    /// A decimal integer that fits in the type.
    fn parse(i: &'a str) -> (r: Result<Self, ErrVal>) {
        match parse_u128(i) {
            Ok(v) => Ok(v),
            Err(e) => Err(value_error(i, "u128", e)),
        }
    }

    open spec fn described_as(t: Seq<char>) -> bool {
        t == "u128"@
    }

    fn desc() -> (r: &'static str) {
        "u128"
    }
}

impl Show for u128 {
    /// In decimal.
    open spec fn shows(&self, t: Seq<char>) -> bool {
        t == int_text(*self as int)
    }

    fn show(&self) -> (r: String) {
        unsigned_text(*self as u128)
    }
}

/// `<usize as FromStr>::from_str`: claimed, as its documentation states, to succeed exactly
/// when `s` is an optional sign (`+` only) and one or more decimal digits
/// whose value fits in `usize`, and then to give that value. The error's text, from
/// `ParseIntError`'s `Display`, is left unsaid.
#[verifier::external_body]
pub(crate) fn parse_usize(s: &str) -> (r: Result<usize, String>)
    ensures
        r is Ok <==> spells_int_in(s@, false, usize::MIN as int, usize::MAX as int),
        r matches Ok(v) ==> spells_int(s@, false, usize::MIN as int, usize::MAX as int, v as int),
{
    <usize as std::str::FromStr>::from_str(s).map_err(|e| format!("{e}"))
}

impl<'a> Parse<'a> for usize {
    /// What reading a token gives.
    open spec fn reads(i: Seq<char>, r: Result<Self, ErrVal>) -> bool {
        &&& r is Ok <==> spells_int_in(i, false, usize::MIN as int, usize::MAX as int)
        &&& r matches Ok(v) ==> spells_int(i, false, usize::MIN as int, usize::MAX as int, v as int)
        &&& r matches Err(ErrVal::Value { input, typename, .. }) ==> input@ == i && typename@ == "usize"@
    }

    /// A decimal integer that fits in the type.
    fn parse(i: &'a str) -> (r: Result<Self, ErrVal>) {
        match parse_usize(i) {
            Ok(v) => Ok(v),
            Err(e) => Err(value_error(i, "usize", e)),
        }
    }

    open spec fn described_as(t: Seq<char>) -> bool {
        t == "usize"@
    }

    fn desc() -> (r: &'static str) {
        "usize"
    }
}

impl Show for usize {
    /// In decimal.
    open spec fn shows(&self, t: Seq<char>) -> bool {
        t == int_text(*self as int)
    }

    fn show(&self) -> (r: String) {
        unsigned_text(*self as u128)
    }
}

/// `<bool as FromStr>::from_str`: claimed, as its documentation states, to accept exactly
/// `true` and `false`. The error's text, from `ParseBoolError`'s `Display`, is left unsaid.
#[verifier::external_body]
fn parse_bool(s: &str) -> (r: Result<bool, String>)
    ensures
        r is Ok <==> (s@ == "true"@ || s@ == "false"@),
        r matches Ok(b) ==> (b <==> s@ == "true"@),
{
    <bool as std::str::FromStr>::from_str(s).map_err(|e| format!("{e}"))
}

impl<'a> Parse<'a> for bool {
    /// What reading a token gives.
    open spec fn reads(i: Seq<char>, r: Result<Self, ErrVal>) -> bool {
        &&& r is Ok <==> (i == "true"@ || i == "false"@)
        &&& r matches Ok(b) ==> (b <==> i == "true"@)
        &&& r matches Err(ErrVal::Value { input, typename, .. }) ==> input@ == i && typename@ == "bool"@
    }

    /// `true` or `false`.
    fn parse(i: &'a str) -> (r: Result<Self, ErrVal>) {
        match parse_bool(i) {
            Ok(v) => Ok(v),
            Err(e) => Err(value_error(i, "bool", e)),
        }
    }

    open spec fn described_as(t: Seq<char>) -> bool {
        t == "bool"@
    }

    fn desc() -> (r: &'static str) {
        "bool"
    }
}

impl Show for bool {
    /// `true` or `false`.
    open spec fn shows(&self, t: Seq<char>) -> bool {
        t == if *self { "true"@ } else { "false"@ }
    }

    fn show(&self) -> (r: String) {
        if *self {
            "true".to_owned()
        } else {
            "false".to_owned()
        }
    }
}

/// `<char as FromStr>::from_str`: claimed, as its documentation states, to accept exactly
/// the strings of one character, and to give that character. The error's text, from
/// `ParseCharError`'s `Display`, is left unsaid.
#[verifier::external_body]
fn parse_char(s: &str) -> (r: Result<char, String>)
    ensures
        r is Ok <==> s@.len() == 1,
        r matches Ok(c) ==> s@ == seq![c],
{
    <char as std::str::FromStr>::from_str(s).map_err(|e| format!("{e}"))
}

impl<'a> Parse<'a> for char {
    /// What reading a token gives.
    open spec fn reads(i: Seq<char>, r: Result<Self, ErrVal>) -> bool {
        &&& r is Ok <==> i.len() == 1
        &&& r matches Ok(c) ==> i == seq![c]
        &&& r matches Err(ErrVal::Value { input, typename, .. }) ==> input@ == i && typename@ == "char"@
    }

    /// Exactly one character.
    fn parse(i: &'a str) -> (r: Result<Self, ErrVal>) {
        match parse_char(i) {
            Ok(v) => Ok(v),
            Err(e) => Err(value_error(i, "char", e)),
        }
    }

    open spec fn described_as(t: Seq<char>) -> bool {
        t == "char"@
    }

    fn desc() -> (r: &'static str) {
        "char"
    }
}

/// `<char as ToString>::to_string`: claimed, as the documentation of `char`'s `Display`
/// says, to give the text of the one character.
#[verifier::external_body]
fn char_text(c: char) -> (r: String)
    ensures
        r@ == seq![c],
{
    c.to_string()
}

impl Show for char {
    /// The character itself.
    open spec fn shows(&self, t: Seq<char>) -> bool {
        t == seq![*self]
    }

    fn show(&self) -> (r: String) {
        char_text(*self)
    }
}

impl<'a> Parse<'a> for String {
    /// What reading a token gives.
    open spec fn reads(i: Seq<char>, r: Result<Self, ErrVal>) -> bool {
        &&& r matches Ok(s) && s@ == i
    }

    /// The token itself.
    fn parse(i: &'a str) -> (r: Result<Self, ErrVal>) {
        Ok(i.to_owned())
    }

    open spec fn described_as(t: Seq<char>) -> bool {
        t == "String"@
    }

    fn desc() -> (r: &'static str) {
        "String"
    }
}

impl Show for String {
    /// The text itself.
    open spec fn shows(&self, t: Seq<char>) -> bool {
        t == self@
    }

    fn show(&self) -> (r: String) {
        self.clone()
    }
}

} // verus!
