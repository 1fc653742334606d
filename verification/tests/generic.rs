use std::path::PathBuf;

use std::collections::HashMap;

use bear::generic::Generic;
use bear::semantic::{CompilerPass, Execution, Meaning, RecognitionResult};
use bear::source::looks_like_a_source_file;

fn path(s: &str) -> PathBuf {
    PathBuf::from(s)
}

fn strings(items: &[&str]) -> Vec<String> {
    items.iter().map(|s| s.to_string()).collect()
}

fn sut() -> Generic {
    Generic::from(&[path("/usr/bin/something")])
}

#[test]
fn test_matching() {
    let input = Execution {
        executable: path("/usr/bin/something"),
        arguments: strings(&["something", "-Dthis=that", "-I.", "source.c", "-o", "source.c.o"]),
        working_dir: path("/home/user"),
        environment: HashMap::new(),
    };

    let expected = Meaning::Compiler {
        compiler: path("/usr/bin/something"),
        working_dir: path("/home/user"),
        passes: vec![CompilerPass::Compile {
            flags: strings(&["-Dthis=that", "-I.", "-o", "source.c.o"]),
            source: path("source.c"),
            output: None,
        }],
    };

    assert_eq!(RecognitionResult::Recognized(Ok(expected)), sut().recognize(&input));
}

#[test]
fn test_matching_without_sources() {
    let input = Execution {
        executable: path("/usr/bin/something"),
        arguments: strings(&["something", "--help"]),
        working_dir: path("/home/user"),
        environment: HashMap::new(),
    };

    assert_eq!(
        RecognitionResult::Recognized(Err(String::from("source file is not found"))),
        sut().recognize(&input)
    );
}

#[test]
fn test_not_matching() {
    let input = Execution {
        executable: path("/usr/bin/cc"),
        arguments: strings(&["cc", "-Dthis=that", "-I.", "source.c", "-o", "source.c.o"]),
        working_dir: path("/home/user"),
        environment: HashMap::new(),
    };

    assert_eq!(RecognitionResult::NotRecognized, sut().recognize(&input));
}

#[test]
fn executable_matches_by_path_components() {
    let input = Execution {
        executable: path("/usr//bin/something/"),
        arguments: strings(&["something", "a.c"]),
        working_dir: path("/home/user"),
        environment: HashMap::new(),
    };
    let expected = Meaning::Compiler {
        compiler: path("/usr//bin/something/"),
        working_dir: path("/home/user"),
        passes: vec![CompilerPass::Compile { source: path("a.c"), output: None, flags: strings(&[]) }],
    };
    assert_eq!(RecognitionResult::Recognized(Ok(expected)), sut().recognize(&input));
}

#[test]
fn each_source_gets_all_flags() {
    let input = Execution {
        executable: path("/usr/bin/something"),
        arguments: strings(&["something", "a.c", "-O2", "b.cpp", "-g"]),
        working_dir: path("/w"),
        environment: HashMap::new(),
    };
    let expected = Meaning::Compiler {
        compiler: path("/usr/bin/something"),
        working_dir: path("/w"),
        passes: vec![
            CompilerPass::Compile { source: path("a.c"), output: None, flags: strings(&["-O2", "-g"]) },
            CompilerPass::Compile { source: path("b.cpp"), output: None, flags: strings(&["-O2", "-g"]) },
        ],
    };
    assert_eq!(RecognitionResult::Recognized(Ok(expected)), sut().recognize(&input));
}

#[test]
fn program_name_is_never_a_source() {
    let input = Execution {
        executable: path("/usr/bin/something"),
        arguments: strings(&["main.c"]),
        working_dir: path("/w"),
        environment: HashMap::new(),
    };
    assert_eq!(
        RecognitionResult::Recognized(Err(String::from("source file is not found"))),
        sut().recognize(&input)
    );
}

#[test]
fn empty_command_line_has_no_source() {
    let input = Execution {
        executable: path("/usr/bin/something"),
        arguments: vec![],
        working_dir: path("/w"),
        environment: HashMap::new(),
    };
    assert_eq!(
        RecognitionResult::Recognized(Err(String::from("source file is not found"))),
        sut().recognize(&input)
    );
}

#[test]
fn source_files_are_told_by_extension() {
    assert!(looks_like_a_source_file("main.c"));
    assert!(looks_like_a_source_file("dir.v1/main.cpp"));
    assert!(looks_like_a_source_file("x.F90"));
    assert!(looks_like_a_source_file("lib.h++"));
    assert!(looks_like_a_source_file(".c"));
    assert!(!looks_like_a_source_file("main.o"));
    assert!(!looks_like_a_source_file("main.c.o"));
    assert!(!looks_like_a_source_file("main"));
    assert!(!looks_like_a_source_file("main."));
    assert!(!looks_like_a_source_file("-x.c"));
    assert!(!looks_like_a_source_file("-I."));
    assert!(!looks_like_a_source_file(""));
}

#[test]
fn executable_with_any_name_matches_by_components() {
    let sut = Generic::from(&[path("/caf\u{e9}")]);
    let input = Execution {
        executable: path("//caf\u{e9}/"),
        arguments: strings(&["x", "a.c"]),
        working_dir: path("/w"),
        environment: HashMap::new(),
    };
    assert!(matches!(sut.recognize(&input), RecognitionResult::Recognized(Ok(_))));
}

#[test]
fn leading_current_dir_and_root_tell_paths_apart() {
    let sut = Generic::from(&[path("./cc")]);
    let exec = |exe: &str| Execution {
        executable: path(exe),
        arguments: strings(&["cc", "a.c"]),
        working_dir: path("/w"),
        environment: HashMap::new(),
    };
    assert!(matches!(sut.recognize(&exec("./cc")), RecognitionResult::Recognized(Ok(_))));
    assert!(matches!(sut.recognize(&exec(".//cc/.")), RecognitionResult::Recognized(Ok(_))));
    assert_eq!(RecognitionResult::NotRecognized, sut.recognize(&exec("cc")));
    assert_eq!(RecognitionResult::NotRecognized, sut.recognize(&exec("/cc")));
    assert_eq!(RecognitionResult::NotRecognized, sut.recognize(&exec("../cc")));
}

#[test]
fn no_compilers_recognise_nothing() {
    let sut = Generic::from(&[]);
    let input = Execution {
        executable: path("/usr/bin/cc"),
        arguments: strings(&["cc", "a.c"]),
        working_dir: path("/w"),
        environment: HashMap::new(),
    };
    assert_eq!(RecognitionResult::NotRecognized, sut.recognize(&input));
}

#[test]
fn repeated_compilers_change_nothing() {
    let once = Generic::from(&[path("/usr/bin/cc")]);
    let twice = Generic::from(&[path("/usr/bin/cc"), path("/usr/bin/cc")]);
    let input = || Execution {
        executable: path("/usr/bin/cc"),
        arguments: strings(&["cc", "a.c"]),
        working_dir: path("/w"),
        environment: HashMap::new(),
    };
    assert_eq!(once.recognize(&input()), twice.recognize(&input()));
}
