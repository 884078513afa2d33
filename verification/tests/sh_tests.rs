use fpr_cli::fuzzy::scan_dirs;
use fpr_cli::sh::{gen_code, metadata_lines, GenErr};

fn lines(s: &[&str]) -> Vec<String> {
    s.iter().map(|l| l.to_string()).collect()
}

#[test]
fn text_script_becomes_a_function() {
    let l = lines(&[
        "#!/bin/bash",
        "# start metadata",
        "# type text",
        "name=$1 # The name",
        "rest=(\"${@:2}\") # Others",
        "# end metadata",
        "echo hi",
    ]);
    let code = gen_code(&l, "x", "/abs/x.sh").ok().unwrap();
    assert_eq!(
        code,
        "/// name # The name\n/// rest # Others\n#[allow(dead_code)]\npub fn x(name: String, rest: &[String]) -> Res<String> {\n    use velcro::vec;\n    let r = std::process::Command::new(\"/abs/x.sh\").args(vec![name, ..rest.to_owned()]).output().map_err(|e| format!(\"Command '/abs/x.sh' error '{e}'\"))?;\n    Ok(String::from_utf8(r.stdout).map_err(|e| format!(\"Output of '/abs/x.sh' not valid UTF-8. '{e}'\"))?)\n}\n"
    );
}

#[test]
fn interactive_script_without_arguments() {
    let l = lines(&["# start metadata", "# type interactive", "# end metadata"]);
    let code = gen_code(&l, "y", "/y").ok().unwrap();
    assert_eq!(
        code,
        "\n#[allow(dead_code)]\npub fn y() -> Res<()> {\n    \n    let _ = std::process::Command::new(\"/y\").status().map_err(|e| format!(\"Command '/y' error '{e}'\"))?;\n    Ok(())\n}\n"
    );
}

#[test]
fn metadata_skips_repeated_openings() {
    let l = lines(&["a", "# start metadata", "x", "# start metadata", "y", "# end metadata", "z"]);
    assert_eq!(metadata_lines(&l), Some(lines(&["x", "y"])));
    assert_eq!(metadata_lines(&lines(&["a"])), None);
    assert_eq!(metadata_lines(&lines(&["# start metadata", "q"])), Some(lines(&["q"])));
}

#[test]
fn script_errors() {
    assert!(matches!(gen_code(&lines(&["x"]), "n", "c"), Err(GenErr::MissingTags)));
    assert!(matches!(
        gen_code(&lines(&["# start metadata", "# end metadata"]), "n", "c"),
        Err(GenErr::NoTypeLine)
    ));
    assert!(matches!(
        gen_code(&lines(&["# start metadata", "# typo"]), "n", "c"),
        Err(GenErr::NoTypeTag)
    ));
    assert!(matches!(
        gen_code(&lines(&["# start metadata", "# type foo"]), "n", "c"),
        Err(GenErr::UnexpectedType)
    ));
    assert!(matches!(
        gen_code(&lines(&["# start metadata", "# type text", "a=$1", "junk"]), "n", "c"),
        Err(GenErr::MalformedLine(2))
    ));
    assert!(matches!(
        gen_code(&lines(&["# start metadata", "# type text", "a=0"]), "n", "c"),
        Err(GenErr::MalformedLine(1))
    ));
    assert!(matches!(
        gen_code(&lines(&["# start metadata", "# type text", "a=$$"]), "n", "c"),
        Err(GenErr::MalformedVariable(1))
    ));
    assert!(matches!(
        gen_code(&lines(&["# start metadata", "# type text", "a=@1"]), "n", "c"),
        Err(GenErr::BadVariable(1))
    ));
    assert!(matches!(
        gen_code(&lines(&["# start metadata", "# type text", "a=$2"]), "n", "c"),
        Err(GenErr::NotOrdered(0))
    ));
    assert!(matches!(
        gen_code(
            &lines(&["# start metadata", "# type text", "a=(\"${@:1}\")", "b=$2"]),
            "n",
            "c"
        ),
        Err(GenErr::NotLastVaridic(0))
    ));
    assert!(matches!(
        gen_code(
            &lines(&["# start metadata", "# type text", "a=$99999999999999999999999"]),
            "n",
            "c"
        ),
        Err(GenErr::NotANumber(1))
    ));
}

#[test]
fn completion_directories() {
    assert_eq!(scan_dirs("src/li"), ("src".to_string(), "src".to_string()));
    assert_eq!(scan_dirs("src/"), ("src/".to_string(), ".".to_string()));
    assert_eq!(scan_dirs("file"), (".".to_string(), ".".to_string()));
    assert_eq!(scan_dirs("/"), ("/".to_string(), ".".to_string()));
}
