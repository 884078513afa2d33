use fpr_cli::internal;
use fpr_cli::values::{dir_exist_check, file_exist_check};
use fpr_cli::ErrVal;

fn error_of(r: Result<(), ErrVal>) -> (String, String, String) {
    match r {
        Err(ErrVal::Value { input, typename, error }) => (input, typename, error),
        Ok(()) => panic!("expected an error"),
    }
}

#[test]
fn file_checks() {
    assert!(file_exist_check("a.txt", true, true).is_ok());
    assert_eq!(
        error_of(file_exist_check("a.txt", false, false)),
        ("a.txt".to_string(), "FileExist".to_string(), "Does not exist".to_string())
    );
    assert_eq!(error_of(file_exist_check("d", true, false)).2, "Not a file");
    assert_eq!(
        error_of(file_exist_check("a", false, true)).0.as_str(),
        "a"
    );
}

#[test]
fn dir_checks() {
    assert!(dir_exist_check("d", true, true).is_ok());
    assert_eq!(
        error_of(dir_exist_check("d", false, true)),
        ("d".to_string(), "DirExist".to_string(), "Does not exist".to_string())
    );
    assert_eq!(error_of(dir_exist_check("f", true, false)).2, "Not a dir");
}

#[test]
fn index_parser_path_checks() {
    assert!(internal::file_exist_check("a", true, true).is_ok());
    let e = internal::file_exist_check("a", false, false).err().unwrap();
    assert_eq!((e.i, e.ty, e.err.as_str()), ("a", "FileExist", "Path does not exist 'a'"));
    let e = internal::file_exist_check("a", true, false).err().unwrap();
    assert_eq!(e.err, "Not a file 'a'");
    assert!(internal::dir_exist_check("d", true, true).is_ok());
    let e = internal::dir_exist_check("d", false, true).err().unwrap();
    assert_eq!((e.ty, e.err.as_str()), ("DirExist", "Path does not exist 'd'"));
    let e = internal::dir_exist_check("d", true, false).err().unwrap();
    assert_eq!(e.err, "Not a directory 'd'");
}
