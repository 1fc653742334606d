use std::path::PathBuf;

use bear::clang::Entry;
use bear::config::Format;
use bear::formatter::{into_string, EntryFormatter, FormatError};
use bear::semantic::{CompilerCall, CompilerPass};

fn path(s: &str) -> PathBuf {
    PathBuf::from(s)
}

fn strings(items: &[&str]) -> Vec<String> {
    items.iter().map(|s| s.to_string()).collect()
}

#[test]
fn test_non_compilations() {
    let format = Format {
        command_as_array: true,
        drop_output_field: false,
        use_absolute_path: false,
    };

    let expected: Vec<Entry> = vec![];

    let input = CompilerCall {
        compiler: path("/usr/bin/cc"),
        working_dir: path("/home/user"),
        passes: vec![CompilerPass::Preprocess],
    };

    let sut: EntryFormatter = (&format).into();
    let result = sut.apply(input);
    assert_eq!(expected, result);
}

#[test]
fn test_single_source_compilation() {
    let format = Format {
        command_as_array: true,
        drop_output_field: false,
        use_absolute_path: false,
    };

    let input = CompilerCall {
        compiler: path("/usr/bin/clang"),
        working_dir: path("/home/user"),
        passes: vec![CompilerPass::Compile {
            source: path("source.c"),
            output: Some(path("source.o")),
            flags: strings(&["-Wall"]),
        }],
    };

    let expected = vec![Entry {
        directory: path("/home/user"),
        file: path("source.c"),
        arguments: strings(&["/usr/bin/clang", "-Wall", "-o", "source.o", "source.c"]),
        output: Some(path("source.o")),
    }];

    let sut: EntryFormatter = (&format).into();
    let result = sut.apply(input);
    assert_eq!(expected, result);
}

#[test]
fn test_multiple_sources_compilation() {
    let format = Format {
        command_as_array: true,
        drop_output_field: true,
        use_absolute_path: false,
    };

    let input = CompilerCall {
        compiler: path("clang"),
        working_dir: path("/home/user"),
        passes: vec![
            CompilerPass::Preprocess,
            CompilerPass::Compile {
                source: path("/tmp/source1.c"),
                output: Some(path("./source1.o")),
                flags: strings(&[]),
            },
            CompilerPass::Compile {
                source: path("../source2.c"),
                output: None,
                flags: strings(&["-Wall"]),
            },
        ],
    };

    let expected = vec![
        Entry {
            directory: path("/home/user"),
            file: path("/tmp/source1.c"),
            arguments: strings(&["clang", "-o", "./source1.o", "/tmp/source1.c"]),
            output: None,
        },
        Entry {
            directory: path("/home/user"),
            file: path("../source2.c"),
            arguments: strings(&["clang", "-Wall", "../source2.c"]),
            output: None,
        },
    ];

    let sut: EntryFormatter = (&format).into();
    let result = sut.apply(input);
    assert_eq!(expected, result);
}

#[test]
fn test_multiple_sources_compilation_with_abs_paths() {
    let format = Format {
        command_as_array: true,
        drop_output_field: true,
        use_absolute_path: true,
    };

    let input = CompilerCall {
        compiler: path("clang"),
        working_dir: path("/home/user"),
        passes: vec![
            CompilerPass::Preprocess,
            CompilerPass::Compile {
                source: path("/tmp/source1.c"),
                output: Some(path("./source1.o")),
                flags: strings(&[]),
            },
            CompilerPass::Compile {
                source: path("../source2.c"),
                output: None,
                flags: strings(&["-Wall"]),
            },
        ],
    };

    let expected = vec![
        Entry {
            directory: path("/home/user"),
            file: path("/tmp/source1.c"),
            arguments: strings(&["clang", "-o", "./source1.o", "/tmp/source1.c"]),
            output: None,
        },
        Entry {
            directory: path("/home/user"),
            file: path("/home/source2.c"),
            arguments: strings(&["clang", "-Wall", "../source2.c"]),
            output: None,
        },
    ];

    let sut: EntryFormatter = (&format).into();
    let result = sut.apply(input);
    assert_eq!(expected, result);
}

fn formatter(drop_output_field: bool, use_absolute_path: bool) -> EntryFormatter {
    let format = Format {
        command_as_array: true,
        drop_output_field,
        use_absolute_path,
    };
    (&format).into()
}

#[test]
fn preprocess_pass_gives_no_entry() {
    let sut = formatter(false, false);
    let result = sut.try_convert_from_pass(&path("/home/user"), &path("cc"), CompilerPass::Preprocess);
    assert_eq!(Err(FormatError::PreprocessPass), result);
}

#[test]
fn absolute_output_is_kept_and_made_absolute() {
    let sut = formatter(false, true);
    let pass = CompilerPass::Compile {
        source: path("src/./main.c"),
        output: Some(path("build/../main.o")),
        flags: strings(&["-c", "-O2"]),
    };
    let result = sut.try_convert_from_pass(&path("/work/project"), &path("gcc"), pass);
    let expected = Entry {
        file: path("/work/project/src/main.c"),
        directory: path("/work/project"),
        output: Some(path("/work/project/main.o")),
        arguments: strings(&["gcc", "-c", "-O2", "-o", "build/../main.o", "src/./main.c"]),
    };
    assert_eq!(Ok(expected), result);
}

#[test]
fn absolute_path_dots_are_resolved() {
    let sut = formatter(false, true);
    let result = sut.format_path(&path("/tmp/./a/../b.c"), &path("/home/user"));
    assert_eq!(Ok(path("/tmp/b.c")), result);
}

#[test]
fn relative_path_is_left_as_it_is_without_absolute_paths() {
    let sut = formatter(false, false);
    let result = sut.format_path(&path("../a/./b.c"), &path("/home/user"));
    assert_eq!(Ok(path("../a/./b.c")), result);
}

#[test]
fn any_name_is_made_absolute() {
    let sut = formatter(false, true);
    let result = sut.format_path(&path("caf\u{e9}.c"), &path("/home"));
    assert_eq!(Ok(path("/home/caf\u{e9}.c")), result);
    let result = sut.format_path(&path("/tmp/./x/../y\u{e9}"), &path("/home"));
    assert_eq!(Ok(path("/tmp/y\u{e9}")), result);
}

#[test]
fn relative_path_resolves_against_the_working_dir() {
    let sut = formatter(false, true);
    let result = sut.format_path(&path("../a.c"), &path("/w\u{e9}/sub"));
    assert_eq!(Ok(path("/w\u{e9}/a.c")), result);
}

#[test]
fn formatting_a_formatted_path_gives_it_back() {
    let sut = formatter(false, true);
    let once = sut.format_path(&path("./src/../lib/a.c"), &path("/home/user")).unwrap();
    assert_eq!(path("/home/user/lib/a.c"), once);
    let twice = sut.format_path(&once, &path("/home/user")).unwrap();
    assert_eq!(once.as_os_str().as_encoded_bytes(), twice.as_os_str().as_encoded_bytes());
}

#[test]
fn arguments_of_a_single_source() {
    let result = EntryFormatter::format_arguments(
        &path("cc"),
        &path("x.c"),
        &strings(&["-I.", "-DX=1"]),
        Some(path("x.o")),
    );
    assert_eq!(Ok(strings(&["cc", "-I.", "-DX=1", "-o", "x.o", "x.c"])), result);
}

#[test]
fn arguments_without_output() {
    let result = EntryFormatter::format_arguments(&path("cc"), &path("x.c"), &strings(&[]), None);
    assert_eq!(Ok(strings(&["cc", "x.c"])), result);
}

#[test]
fn into_string_reads_utf8_text() {
    assert_eq!(Ok("/usr/bin/cc".to_string()), into_string(&path("/usr/bin/cc")));
    assert_eq!(Ok("caf\u{e9}.c".to_string()), into_string(&path("caf\u{e9}.c")));
}

#[test]
fn entries_keep_the_working_directory() {
    let sut = formatter(true, false);
    let input = CompilerCall {
        compiler: path("cc"),
        working_dir: path("/srv"),
        passes: vec![
            CompilerPass::Compile { source: path("a.c"), output: Some(path("a.o")), flags: strings(&[]) },
            CompilerPass::Compile { source: path("b.c"), output: Some(path("b.o")), flags: strings(&[]) },
        ],
    };
    let result = sut.apply(input);
    assert_eq!(2, result.len());
    for entry in result {
        assert_eq!(path("/srv"), entry.directory);
        assert_eq!(None, entry.output);
    }
}

#[test]
fn relative_path_needs_an_absolute_working_dir() {
    let sut = formatter(false, true);
    assert_eq!(Err(FormatError::RelativeWorkingDir), sut.format_path(&path("a/.."), &path("")));
    assert_eq!(Err(FormatError::RelativeWorkingDir), sut.format_path(&path("../.."), &path("x")));
}

#[test]
fn dots_never_climb_above_the_root() {
    let sut = formatter(false, true);
    assert_eq!(Ok(path("/")), sut.format_path(&path("../../.."), &path("/home")));
    assert_eq!(Ok(path("/home/user")), sut.format_path(&path("."), &path("/home/user")));
}

#[test]
fn error_messages() {
    assert_eq!("preprocess pass should not show up in results", FormatError::PreprocessPass.message());
    assert_eq!("Path can't be encoded to UTF", FormatError::NotUtf8Path.message());
    assert_eq!("the current directory could not be read", FormatError::CurrentDirUnavailable.message());
    assert_eq!("the working directory is not an absolute path", FormatError::RelativeWorkingDir.message());
}

#[test]
fn failures_are_reported_in_order() {
    let sut = formatter(false, true);
    let input = CompilerCall {
        compiler: path("cc"),
        working_dir: path("w"),
        passes: vec![
            CompilerPass::Preprocess,
            CompilerPass::Compile { source: path("/a.c"), output: None, flags: strings(&[]) },
            CompilerPass::Compile { source: path("b.c"), output: None, flags: strings(&[]) },
        ],
    };
    let (entries, failures) = sut.apply_with_failures(input);
    assert_eq!(
        vec![Entry { file: path("/a.c"), directory: path("w"), output: None, arguments: strings(&["cc", "/a.c"]) }],
        entries
    );
    assert_eq!(vec![FormatError::PreprocessPass, FormatError::RelativeWorkingDir], failures);
}

#[test]
fn joined_pass_lists_give_joined_entries() {
    let sut = formatter(false, false);
    let first = || vec![CompilerPass::Compile { source: path("a.c"), output: None, flags: strings(&["-g"]) }];
    let second = || {
        vec![
            CompilerPass::Preprocess,
            CompilerPass::Compile { source: path("b.c"), output: Some(path("b.o")), flags: strings(&[]) },
        ]
    };
    let call = |passes: Vec<CompilerPass>| CompilerCall { compiler: path("cc"), working_dir: path("/w"), passes };
    let mut expected = sut.apply(call(first()));
    expected.extend(sut.apply(call(second())));
    let mut both = first();
    both.extend(second());
    assert_eq!(expected, sut.apply(call(both)));
}
