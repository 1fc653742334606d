//! Turning compiler calls into entries of the compilation database.

use vstd::prelude::*;
use vstd::utf8::{encode_utf8, encode_utf8_decode_utf8, encode_utf8_valid_utf8};
use path_absolutize::Absolutize;
use std::path::PathBuf;
use crate::clang::{optional_path, Entry, EntryView};
use crate::config::Format;
use crate::semantic::{pass_views, CompilerCall, CompilerPass, CompilerPassView};
use crate::generic::compile_passes;
use crate::paths::{copy_path, bytes_of, is_absolute, is_normal_path, path_bytes, starts_at_root};
use crate::text::{decode_text, utf8_text};

verus! {

/// The error type of `std::io`, which the path functions return.
#[verifier::external_type_specification]
#[verifier::external_body]
pub struct ExIoError(std::io::Error);

/// Why a compiler pass gives no entry.
#[derive(Debug, Clone, Copy, PartialEq, Eq)]
pub enum FormatError {
    /// Preprocessing passes have no place in the compilation database.
    PreprocessPass,
    /// A path that has to be written as text is not UTF-8.
    NotUtf8Path,
    /// The current directory, which making a path absolute reads, could not be read.
    CurrentDirUnavailable,
    /// A relative path cannot be made absolute from a working directory that is
    /// not absolute itself.
    RelativeWorkingDir,
}

impl FormatError {
    /// The text that tells the reason.
    pub open spec fn spec_message(self) -> Seq<char> {
        match self {
            FormatError::PreprocessPass => "preprocess pass should not show up in results"@,
            FormatError::NotUtf8Path => "Path can't be encoded to UTF"@,
            FormatError::CurrentDirUnavailable => "the current directory could not be read"@,
            FormatError::RelativeWorkingDir => "the working directory is not an absolute path"@,
        }
    }

    /// The text that tells the reason, for the log.
    pub fn message(&self) -> (res: String)
        ensures
            res@ == self.spec_message(),
    {
        match self {
            FormatError::PreprocessPass => "preprocess pass should not show up in results".to_owned(),
            FormatError::NotUtf8Path => "Path can't be encoded to UTF".to_owned(),
            FormatError::CurrentDirUnavailable => "the current directory could not be read".to_owned(),
            FormatError::RelativeWorkingDir => "the working directory is not an absolute path".to_owned(),
        }
    }
}

/// The path that `path_absolutize` makes of `path` taken from the directory `cwd`:
/// the dots of the path are resolved against `cwd` without looking at the file system.
pub uninterp spec fn absolutized_from(path: Seq<u8>, cwd: Seq<u8>) -> Seq<u8>;

/// The path that `path_absolutize` makes of a `path` that starts at the root: its
/// dots resolved, with no directory playing a part.
pub uninterp spec fn absolutized(path: Seq<u8>) -> Seq<u8>;

/// Trusted: `<Path as path_absolutize::Absolutize>::absolutize_from`. Its source
/// (version 3.1.1) takes the components of `cwd` as tokens (or of its parent, when
/// the path starts with `..`), then pushes each component of the path, pops one for
/// each `..` (never the root) and skips `.`, without touching the file system; it
/// returns `Ok` on every path it returns from, and the result is named after the
/// bytes of the two paths. With a `cwd` that starts with `/`, which is all this item
/// admits, the first token is that root: the result starts with `/`. When `cwd` is
/// in normal form every token is a plain name, so the result is in normal form too.
/// For a path that starts at the root, `cwd` plays no part at all: the root is the
/// first token whatever `cwd` is, so the result is the one that `absolutize` gives
/// (which reads the current directory only to hand it to `absolutize_from`).
/// (With a relative or empty `cwd`, `..` can empty the token list, and the function
/// then panics.)
#[verifier::external_body]
fn absolutize_from_dir(path: &PathBuf, cwd: &PathBuf) -> (res: Result<PathBuf, std::io::Error>)
    requires
        starts_at_root(path_bytes(*cwd)),
    ensures
        res is Ok,
        res matches Ok(p) ==> path_bytes(p) == absolutized_from(path_bytes(*path), path_bytes(*cwd))
            && starts_at_root(path_bytes(p)),
        res matches Ok(p) ==> (is_normal_path(path_bytes(*cwd)) ==> is_normal_path(path_bytes(p))),
        res matches Ok(p) ==> (starts_at_root(path_bytes(*path)) ==> path_bytes(p) == absolutized(
            path_bytes(*path),
        )),
{
    match path.absolutize_from(cwd) {
        Ok(p) => Ok(p.into_owned()),
        Err(e) => Err(e),
    }
}

/// Trusted: `<Path as path_absolutize::Absolutize>::absolutize`. Its source reads the
/// current directory (the error of `std::env::current_dir` is passed on) and then
/// resolves the path against it; for a path that starts with `/`, which is all this
/// item admits, the directory plays no part in the result, so the result is named
/// after the path alone. The tokens are the root and plain names, so the result is
/// in normal form; and a path already in normal form gives as many bytes as it has
/// and no change, so it is given back as it is. Whether the read of the current
/// directory succeeds depends on the machine and is not stated.
#[verifier::external_body]
fn absolutize_in_place(path: &PathBuf) -> (res: Result<PathBuf, std::io::Error>)
    requires
        starts_at_root(path_bytes(*path)),
    ensures
        res matches Ok(p) ==> path_bytes(p) == absolutized(path_bytes(*path))
            && is_normal_path(path_bytes(p)),
        res matches Ok(p) ==> (is_normal_path(path_bytes(*path)) ==> path_bytes(p) == path_bytes(*path)),
{
    match path.absolutize() {
        Ok(p) => Ok(p.into_owned()),
        Err(e) => Err(e),
    }
}

/// The outcome of formatting `path` (found in the directory `root`). Only for a path
/// that starts at the root and is to be made absolute does the outcome depend on
/// the machine: on whether the current directory can be read (`cwd_readable`).
/// Any bytes can be made absolute. A relative path is made absolute only from a
/// working directory that starts at the root; otherwise it is refused with
/// `RelativeWorkingDir`.
pub open spec fn formatted_path(
    absolute: bool,
    path: Seq<u8>,
    root: Seq<u8>,
    cwd_readable: bool,
) -> Result<Seq<u8>, FormatError> {
    if !absolute {
        Ok(path)
    } else if starts_at_root(path) {
        if cwd_readable {
            Ok(absolutized(path))
        } else {
            Err(FormatError::CurrentDirUnavailable)
        }
    } else if !starts_at_root(root) {
        Err(FormatError::RelativeWorkingDir)
    } else {
        Ok(absolutized_from(path, root))
    }
}

/// The command line of a compiler call on one source: the compiler, the flags, the
/// output when there is one, then the source; `None` when one of the paths is not UTF-8.
pub open spec fn assembled_arguments(
    compiler: Seq<u8>,
    source: Seq<u8>,
    flags: Seq<Seq<char>>,
    output: Option<Seq<u8>>,
) -> Option<Seq<Seq<char>>> {
    match (utf8_text(compiler), utf8_text(source)) {
        (Some(c), Some(s)) => match output {
            None => Some(seq![c] + flags + seq![s]),
            Some(o) => match utf8_text(o) {
                Some(t) => Some(seq![c] + flags + seq!["-o"@, t] + seq![s]),
                None => None,
            },
        },
        _ => None,
    }
}

/// The entry (or the reason for none) that a pass gives. The current directory is
/// read at most once for a pass, and `cwd_readable` tells whether it could be: the
/// source and the output are formatted with that one reading.
pub open spec fn converted(
    absolute: bool,
    drop_output: bool,
    working_dir: Seq<u8>,
    compiler: Seq<u8>,
    pass: CompilerPassView,
    cwd_readable: bool,
) -> Result<EntryView, FormatError> {
    match pass {
        CompilerPassView::Preprocess => Err(FormatError::PreprocessPass),
        CompilerPassView::Compile { source, output, flags } => match formatted_path(
            absolute,
            source,
            working_dir,
            cwd_readable,
        ) {
            Err(e) => Err(e),
            Ok(file) => match assembled_arguments(compiler, source, flags, output) {
                None => Err(FormatError::NotUtf8Path),
                Some(arguments) => Ok(
                    EntryView {
                        file,
                        directory: working_dir,
                        output: if drop_output {
                            None
                        } else {
                            match output {
                                None => None,
                                Some(o) => match formatted_path(
                                    absolute,
                                    o,
                                    working_dir,
                                    cwd_readable,
                                ) {
                                    Ok(p) => Some(p),
                                    Err(_) => None,
                                },
                            }
                        },
                        arguments,
                    },
                ),
            },
        },
    }
}

/// The entries of the passes, in their order: each pass that converts gives one.
pub open spec fn converted_entries(
    absolute: bool,
    drop_output: bool,
    working_dir: Seq<u8>,
    compiler: Seq<u8>,
    passes: Seq<CompilerPassView>,
    cwd_readable: Seq<bool>,
) -> Seq<EntryView>
    decreases passes.len(),
{
    if passes.len() == 0 {
        Seq::<EntryView>::empty()
    } else {
        let before = converted_entries(
            absolute,
            drop_output,
            working_dir,
            compiler,
            passes.drop_last(),
            cwd_readable,
        );
        match converted(
            absolute,
            drop_output,
            working_dir,
            compiler,
            passes.last(),
            cwd_readable[passes.len() - 1],
        ) {
            Ok(e) => before.push(e),
            Err(_) => before,
        }
    }
}

/// Whether the file, and the output when there is one, start at the root.
pub open spec fn has_absolute_paths(e: EntryView) -> bool {
    &&& starts_at_root(e.file)
    &&& match e.output {
        Some(o) => starts_at_root(o),
        None => true,
    }
}

/// The value of a formatted path, or the reason for none.
pub open spec fn bytes_result(r: Result<PathBuf, FormatError>) -> Result<Seq<u8>, FormatError> {
    match r {
        Ok(p) => Ok(path_bytes(p)),
        Err(e) => Err(e),
    }
}

/// The value of a converted entry, or the reason for none.
pub open spec fn entry_result(r: Result<Entry, FormatError>) -> Result<EntryView, FormatError> {
    match r {
        Ok(e) => Ok(e@),
        Err(e) => Err(e),
    }
}

/// The values of the entries.
pub open spec fn entry_views(entries: Seq<Entry>) -> Seq<EntryView> {
    entries.map_values(|e: Entry| e@)
}

/// The entries of the passes depend only on the readings of the current directory
/// made for those passes.
proof fn lemma_entries_depend_on_own_readings(
    absolute: bool,
    drop_output: bool,
    working_dir: Seq<u8>,
    compiler: Seq<u8>,
    passes: Seq<CompilerPassView>,
    r1: Seq<bool>,
    r2: Seq<bool>,
)
    requires
        r1.len() >= passes.len(),
        r2.len() >= passes.len(),
        forall|i: int| 0 <= i < passes.len() ==> r1[i] == r2[i],
    ensures
        converted_entries(absolute, drop_output, working_dir, compiler, passes, r1)
            == converted_entries(absolute, drop_output, working_dir, compiler, passes, r2),
        converted_failures(absolute, drop_output, working_dir, compiler, passes, r1)
            == converted_failures(absolute, drop_output, working_dir, compiler, passes, r2),
    decreases passes.len(),
{
    if passes.len() > 0 {
        lemma_entries_depend_on_own_readings(
            absolute,
            drop_output,
            working_dir,
            compiler,
            passes.drop_last(),
            r1,
            r2,
        );
    }
}

/// When no path is made absolute, the entries do not depend on the machine: the
/// readings of the current directory play no part in them.
pub proof fn law_relative_entries_are_determined(
    drop_output: bool,
    working_dir: Seq<u8>,
    compiler: Seq<u8>,
    passes: Seq<CompilerPassView>,
    r1: Seq<bool>,
    r2: Seq<bool>,
)
    requires
        r1.len() >= passes.len(),
        r2.len() >= passes.len(),
    ensures
        converted_entries(false, drop_output, working_dir, compiler, passes, r1)
            == converted_entries(false, drop_output, working_dir, compiler, passes, r2),
    decreases passes.len(),
{
    if passes.len() > 0 {
        law_relative_entries_are_determined(
            drop_output,
            working_dir,
            compiler,
            passes.drop_last(),
            r1,
            r2,
        );
    }
}

/// The entry of one source of a compiler call read from a command line: the file is
/// the source as written, the directory the working directory, no output, and the
/// command line the compiler, the flags, then the source.
pub open spec fn entry_of_source(
    working_dir: Seq<u8>,
    compiler: Seq<char>,
    flags: Seq<Seq<char>>,
    source: Seq<char>,
) -> EntryView {
    EntryView {
        file: encode_utf8(source),
        directory: working_dir,
        output: None,
        arguments: seq![compiler] + flags + seq![source],
    }
}

/// Formatting (without absolute paths) the compilations that a command line gives
/// yields one entry for each source, in their order, whose command line is the
/// compiler, the flags, then that source alone.
pub proof fn law_each_source_becomes_one_entry(
    drop_output: bool,
    working_dir: Seq<u8>,
    compiler: Seq<u8>,
    sources: Seq<Seq<char>>,
    flags: Seq<Seq<char>>,
    cwd_readable: Seq<bool>,
)
    requires
        utf8_text(compiler) is Some,
        cwd_readable.len() >= sources.len(),
    ensures
        converted_entries(
            false,
            drop_output,
            working_dir,
            compiler,
            compile_passes(sources, flags),
            cwd_readable,
        ) == sources.map_values(
            |s: Seq<char>| entry_of_source(working_dir, utf8_text(compiler)->0, flags, s),
        ),
    decreases sources.len(),
{
    let passes = compile_passes(sources, flags);
    if sources.len() > 0 {
        let init = sources.drop_last();
        let s = sources.last();
        assert(passes.drop_last() =~= compile_passes(init, flags));
        law_each_source_becomes_one_entry(
            drop_output,
            working_dir,
            compiler,
            init,
            flags,
            cwd_readable,
        );
        encode_utf8_valid_utf8(s);
        encode_utf8_decode_utf8(s);
        assert(utf8_text(encode_utf8(s)) == Some(s));
        assert(sources.map_values(
            |t: Seq<char>| entry_of_source(working_dir, utf8_text(compiler)->0, flags, t),
        ) =~= init.map_values(
            |t: Seq<char>| entry_of_source(working_dir, utf8_text(compiler)->0, flags, t),
        ).push(entry_of_source(working_dir, utf8_text(compiler)->0, flags, s)));
    } else {
        assert(sources.map_values(
            |t: Seq<char>| entry_of_source(working_dir, utf8_text(compiler)->0, flags, t),
        ) =~= Seq::<EntryView>::empty());
    }
}

/// The command line of a call with an output holds `-o` and the output's text just
/// before the source, whatever the output is (a path that starts at the root as much
/// as a relative one): it is the command line without the output, with those two
/// arguments put in before its last one.
pub proof fn law_output_goes_before_the_source(
    compiler: Seq<u8>,
    source: Seq<u8>,
    flags: Seq<Seq<char>>,
    output: Seq<u8>,
)
    requires
        utf8_text(compiler) is Some,
        utf8_text(source) is Some,
        utf8_text(output) is Some,
    ensures
        assembled_arguments(compiler, source, flags, Some(output)) == Some(
            seq![utf8_text(compiler)->0] + flags + seq!["-o"@, utf8_text(output)->0, utf8_text(source)->0],
        ),
        assembled_arguments(compiler, source, flags, None) is Some,
        assembled_arguments(compiler, source, flags, Some(output))->0 == assembled_arguments(
            compiler,
            source,
            flags,
            None,
        )->0.drop_last() + seq!["-o"@, utf8_text(output)->0] + seq![
            assembled_arguments(compiler, source, flags, None)->0.last(),
        ],
{
    let c = utf8_text(compiler)->0;
    let s = utf8_text(source)->0;
    let o = utf8_text(output)->0;
    assert(seq![c] + flags + seq!["-o"@, o] + seq![s] =~= seq![c] + flags + seq!["-o"@, o, s]);
    assert((seq![c] + flags + seq![s]).drop_last() =~= seq![c] + flags);
}

/// The entry of one source of a compiler call that writes `output`: the file is the
/// source as written, the directory the working directory, the output kept unless
/// it is dropped, and the command line the compiler, the flags, `-o` and the output,
/// then the source.
pub open spec fn entry_of_source_with_output(
    working_dir: Seq<u8>,
    compiler: Seq<char>,
    flags: Seq<Seq<char>>,
    output: Seq<char>,
    drop_output: bool,
    source: Seq<char>,
) -> EntryView {
    EntryView {
        file: encode_utf8(source),
        directory: working_dir,
        output: if drop_output {
            None
        } else {
            Some(encode_utf8(output))
        },
        arguments: seq![compiler] + flags + seq!["-o"@, output] + seq![source],
    }
}

/// Compilations of several sources that all write `output`.
pub open spec fn compile_passes_with_output(
    sources: Seq<Seq<char>>,
    flags: Seq<Seq<char>>,
    output: Seq<char>,
) -> Seq<CompilerPassView> {
    sources.map_values(
        |s: Seq<char>|
            CompilerPassView::Compile { source: encode_utf8(s), output: Some(encode_utf8(output)), flags },
    )
}

/// Formatting (without absolute paths) compilations that write an output yields one
/// entry for each source, in their order; each keeps the output unless the
/// configuration drops it, and its command line passes the output with `-o` before
/// the source, for every output path.
pub proof fn law_each_source_with_output_becomes_one_entry(
    drop_output: bool,
    working_dir: Seq<u8>,
    compiler: Seq<u8>,
    sources: Seq<Seq<char>>,
    flags: Seq<Seq<char>>,
    output: Seq<char>,
    cwd_readable: Seq<bool>,
)
    requires
        utf8_text(compiler) is Some,
        cwd_readable.len() >= sources.len(),
    ensures
        converted_entries(
            false,
            drop_output,
            working_dir,
            compiler,
            compile_passes_with_output(sources, flags, output),
            cwd_readable,
        ) == sources.map_values(
            |s: Seq<char>|
                entry_of_source_with_output(
                    working_dir,
                    utf8_text(compiler)->0,
                    flags,
                    output,
                    drop_output,
                    s,
                ),
        ),
    decreases sources.len(),
{
    let c = utf8_text(compiler)->0;
    let passes = compile_passes_with_output(sources, flags, output);
    encode_utf8_valid_utf8(output);
    encode_utf8_decode_utf8(output);
    if sources.len() > 0 {
        let init = sources.drop_last();
        let s = sources.last();
        assert(passes.drop_last() =~= compile_passes_with_output(init, flags, output));
        law_each_source_with_output_becomes_one_entry(
            drop_output,
            working_dir,
            compiler,
            init,
            flags,
            output,
            cwd_readable,
        );
        encode_utf8_valid_utf8(s);
        encode_utf8_decode_utf8(s);
        assert(utf8_text(encode_utf8(s)) == Some(s));
        assert(utf8_text(encode_utf8(output)) == Some(output));
        assert(sources.map_values(
            |t: Seq<char>| entry_of_source_with_output(working_dir, c, flags, output, drop_output, t),
        ) =~= init.map_values(
            |t: Seq<char>| entry_of_source_with_output(working_dir, c, flags, output, drop_output, t),
        ).push(entry_of_source_with_output(working_dir, c, flags, output, drop_output, s)));
    } else {
        assert(sources.map_values(
            |t: Seq<char>| entry_of_source_with_output(working_dir, c, flags, output, drop_output, t),
        ) =~= Seq::<EntryView>::empty());
    }
}

/// When the output field is kept, a compilation that gives an entry gives its
/// output too, formatted as the source is, whenever the output is a path of the
/// same kind as the source (both start at the root, or neither does), or is
/// relative to a working directory that starts at the root. Without absolute
/// paths it is written as it is; a path that starts at the root is made absolute
/// with the same reading of the current directory that made the source absolute;
/// a relative path is made absolute from the working directory.
pub proof fn law_kept_output_is_written(
    absolute: bool,
    working_dir: Seq<u8>,
    compiler: Seq<u8>,
    source: Seq<u8>,
    output: Seq<u8>,
    flags: Seq<Seq<char>>,
    cwd_readable: bool,
)
    requires
        converted(
            absolute,
            false,
            working_dir,
            compiler,
            CompilerPassView::Compile { source, output: Some(output), flags },
            cwd_readable,
        ) is Ok,
        absolute && starts_at_root(output) ==> starts_at_root(source),
        absolute && !starts_at_root(output) ==> !starts_at_root(source) || starts_at_root(
            working_dir,
        ),
    ensures
        converted(
            absolute,
            false,
            working_dir,
            compiler,
            CompilerPassView::Compile { source, output: Some(output), flags },
            cwd_readable,
        )->Ok_0.output == Some(
            if !absolute {
                output
            } else if starts_at_root(output) {
                absolutized(output)
            } else {
                absolutized_from(output, working_dir)
            },
        ),
{
}

/// Under absolute paths, an entry that leaves out an output that starts at the
/// root, although the output field is kept, comes only from a pass whose reading
/// of the current directory failed; its source was then relative, for a source
/// that starts at the root fails with that reading.
pub proof fn law_rooted_output_is_left_out_only_without_current_dir(
    working_dir: Seq<u8>,
    compiler: Seq<u8>,
    source: Seq<u8>,
    output: Seq<u8>,
    flags: Seq<Seq<char>>,
    cwd_readable: bool,
)
    requires
        starts_at_root(output),
        converted(
            true,
            false,
            working_dir,
            compiler,
            CompilerPassView::Compile { source, output: Some(output), flags },
            cwd_readable,
        ) matches Ok(e) && e.output is None,
    ensures
        !cwd_readable,
        !starts_at_root(source),
        formatted_path(true, output, working_dir, cwd_readable) == Err::<Seq<u8>, FormatError>(
            FormatError::CurrentDirUnavailable,
        ),
{
}

/// The reasons of the passes that give no entry, in their order.
pub open spec fn converted_failures(
    absolute: bool,
    drop_output: bool,
    working_dir: Seq<u8>,
    compiler: Seq<u8>,
    passes: Seq<CompilerPassView>,
    cwd_readable: Seq<bool>,
) -> Seq<FormatError>
    decreases passes.len(),
{
    if passes.len() == 0 {
        Seq::<FormatError>::empty()
    } else {
        let before = converted_failures(
            absolute,
            drop_output,
            working_dir,
            compiler,
            passes.drop_last(),
            cwd_readable,
        );
        match converted(
            absolute,
            drop_output,
            working_dir,
            compiler,
            passes.last(),
            cwd_readable[passes.len() - 1],
        ) {
            Ok(_) => before,
            Err(e) => before.push(e),
        }
    }
}

/// Each pass is converted on its own: the entries of two lists of passes one after
/// the other are the entries of the first list followed by those of the second.
pub proof fn law_entries_of_joined_passes(
    absolute: bool,
    drop_output: bool,
    working_dir: Seq<u8>,
    compiler: Seq<u8>,
    p1: Seq<CompilerPassView>,
    p2: Seq<CompilerPassView>,
    r1: Seq<bool>,
    r2: Seq<bool>,
)
    requires
        r1.len() == p1.len(),
        r2.len() == p2.len(),
    ensures
        converted_entries(absolute, drop_output, working_dir, compiler, p1 + p2, r1 + r2)
            == converted_entries(absolute, drop_output, working_dir, compiler, p1, r1)
            + converted_entries(absolute, drop_output, working_dir, compiler, p2, r2),
    decreases p2.len(),
{
    let e1 = converted_entries(absolute, drop_output, working_dir, compiler, p1, r1);
    if p2.len() == 0 {
        assert(p1 + p2 =~= p1);
        lemma_entries_depend_on_own_readings(
            absolute, drop_output, working_dir, compiler, p1, r1 + r2, r1);
        assert(e1 + Seq::<EntryView>::empty() =~= e1);
    } else {
        let q = p2.drop_last();
        let x = p2.last();
        law_entries_of_joined_passes(
            absolute, drop_output, working_dir, compiler, p1, q, r1, r2.drop_last());
        assert((p1 + p2).drop_last() =~= p1 + q);
        assert((p1 + p2).last() == x);
        assert((r1 + r2)[(p1 + p2).len() - 1] == r2[p2.len() - 1]);
        lemma_entries_depend_on_own_readings(
            absolute, drop_output, working_dir, compiler, p1 + q, r1 + r2, r1 + r2.drop_last());
        lemma_entries_depend_on_own_readings(
            absolute, drop_output, working_dir, compiler, q, r2, r2.drop_last());
        let e2 = converted_entries(absolute, drop_output, working_dir, compiler, q, r2);
        match converted(absolute, drop_output, working_dir, compiler, x, r2[p2.len() - 1]) {
            Ok(e) => {
                assert((e1 + e2).push(e) =~= e1 + e2.push(e));
            },
            Err(_) => {},
        }
    }
}

/// Without absolute paths a path is written as it is, so formatting a formatted
/// path gives it back.
pub proof fn law_relative_formatting_is_stable(
    path: Seq<u8>,
    root: Seq<u8>,
    r1: bool,
    r2: bool,
)
    ensures
        formatted_path(false, path, root, r1) == Ok::<Seq<u8>, FormatError>(path),
        formatted_path(false, path, root, r1) matches Ok(p) ==> formatted_path(false, p, root, r2) == Ok::<
            Seq<u8>,
            FormatError,
        >(p),
{
}

/// The text of a path, for the command line.
pub fn into_string(path: &PathBuf) -> (res: Result<String, FormatError>)
    ensures
        match utf8_text(path_bytes(*path)) {
            Some(t) => res matches Ok(s) && s@ == t,
            None => res == Err::<String, FormatError>(FormatError::NotUtf8Path),
        },
{
    let bytes = bytes_of(path);
    match decode_text(bytes.as_slice()) {
        Some(s) => Ok(s),
        None => Err(FormatError::NotUtf8Path),
    }
}

/// Writes the entries of the compilation database.
pub struct EntryFormatter {
    drop_output_field: bool,
    use_absolute_path: bool,
}

impl<'a> From<&'a Format> for EntryFormatter {
    /// Creates a formatter from the configuration.
    fn from(config: &'a Format) -> (res: Self)
        ensures
            res.drops_output() == config.drop_output_field,
            res.absolute_paths() == config.use_absolute_path,
    {
        let drop_output_field = config.drop_output_field;
        let use_absolute_path = config.use_absolute_path;
        EntryFormatter { drop_output_field, use_absolute_path }
    }
}

impl<'a> vstd::std_specs::convert::FromSpecImpl<&'a Format> for EntryFormatter {
    open spec fn obeys_from_spec() -> bool {
        true
    }

    closed spec fn from_spec(config: &'a Format) -> Self {
        EntryFormatter {
            drop_output_field: config.drop_output_field,
            use_absolute_path: config.use_absolute_path,
        }
    }
}

impl EntryFormatter {
    /// Whether the entries leave the output out.
    pub closed spec fn drops_output(&self) -> bool {
        self.drop_output_field
    }

    /// Whether the paths of the entries are made absolute.
    pub closed spec fn absolute_paths(&self) -> bool {
        self.use_absolute_path
    }

    /// Converts the compiler call into entries: one entry for each pass that
    /// converts, in the order of the passes; the passes that do not convert
    /// (preprocessing passes among them) are left out.
    pub fn apply(&self, compiler_call: CompilerCall) -> (res: Vec<Entry>)
        ensures
            exists|cwd_readable: Seq<bool>|
                cwd_readable.len() == compiler_call.passes.len() && entry_views(res@)
                    == #[trigger] converted_entries(
                    self.absolute_paths(),
                    self.drops_output(),
                    path_bytes(compiler_call.working_dir),
                    path_bytes(compiler_call.compiler),
                    pass_views(compiler_call.passes@),
                    cwd_readable,
                ),
            forall|k: int| 0 <= k < res.len() ==> #[trigger] path_bytes(res[k].directory) == path_bytes(compiler_call.working_dir),
            self.drops_output() ==> forall|k: int| 0 <= k < res.len() ==> #[trigger] res[k].output is None,
            self.absolute_paths() ==> forall|k: int|
                0 <= k < res.len() ==> has_absolute_paths(#[trigger] res[k]@),
            res.len() <= compiler_call.passes.len(),
    {
        let (entries, _failures) = self.apply_with_failures(compiler_call);
        entries
    }

    /// Converts the compiler call as `apply` does, and also gives the reasons of the
    /// passes that did not convert, in their order, for the log.
    #[verifier::spinoff_prover]
    pub fn apply_with_failures(&self, compiler_call: CompilerCall) -> (res: (Vec<Entry>, Vec<FormatError>))
        ensures
            exists|cwd_readable: Seq<bool>|
                cwd_readable.len() == compiler_call.passes.len() && entry_views(res.0@)
                    == #[trigger] converted_entries(
                    self.absolute_paths(),
                    self.drops_output(),
                    path_bytes(compiler_call.working_dir),
                    path_bytes(compiler_call.compiler),
                    pass_views(compiler_call.passes@),
                    cwd_readable,
                ) && res.1@ == converted_failures(
                    self.absolute_paths(),
                    self.drops_output(),
                    path_bytes(compiler_call.working_dir),
                    path_bytes(compiler_call.compiler),
                    pass_views(compiler_call.passes@),
                    cwd_readable,
                ),
            forall|k: int| 0 <= k < res.0.len() ==> #[trigger] path_bytes(res.0[k].directory) == path_bytes(compiler_call.working_dir),
            self.drops_output() ==> forall|k: int| 0 <= k < res.0.len() ==> #[trigger] res.0[k].output is None,
            self.absolute_paths() ==> forall|k: int|
                0 <= k < res.0.len() ==> has_absolute_paths(#[trigger] res.0[k]@),
            res.0.len() + res.1.len() == compiler_call.passes.len(),
    {
        let CompilerCall { compiler, working_dir, passes } = compiler_call;
        let ghost all = pass_views(passes@);
        let ghost mut readings: Seq<bool> = Seq::empty();
        let mut entries: Vec<Entry> = Vec::new();
        let mut failures: Vec<FormatError> = Vec::new();
        let n = passes.len();
        for pass in it: passes
            invariant
                n == all.len(),
                it.seq() == passes@,
                all == pass_views(passes@),
                readings.len() == it.index(),
                entries.len() + failures.len() == it.index(),
                entry_views(entries@) == converted_entries(
                    self.absolute_paths(),
                    self.drops_output(),
                    path_bytes(working_dir),
                    path_bytes(compiler),
                    all.take(it.index()),
                    readings,
                ),
                failures@ == converted_failures(
                    self.absolute_paths(),
                    self.drops_output(),
                    path_bytes(working_dir),
                    path_bytes(compiler),
                    all.take(it.index()),
                    readings,
                ),
                forall|k: int| 0 <= k < entries.len() ==> #[trigger] path_bytes(entries[k].directory) == path_bytes(working_dir),
                self.drops_output() ==> forall|k: int| 0 <= k < entries.len() ==> #[trigger] entries[k].output is None,
                self.absolute_paths() ==> forall|k: int|
                    0 <= k < entries.len() ==> has_absolute_paths(#[trigger] entries[k]@),
        {
            let ghost i = it.index();
            let ghost before = entries@;
            let result = self.try_convert_from_pass(&working_dir, &compiler, pass);
            let ghost r = choose|r: bool| entry_result(result) == converted(
                self.absolute_paths(), self.drops_output(), path_bytes(working_dir), path_bytes(compiler), pass@, r);
            proof {
                let next = readings.push(r);
                assert(all.take(i + 1).drop_last() =~= all.take(i));
                assert(all.take(i + 1).last() == pass@);
                lemma_entries_depend_on_own_readings(
                    self.absolute_paths(), self.drops_output(), path_bytes(working_dir), path_bytes(compiler),
                    all.take(i), readings, next);
                readings = next;
            }
            match result {
                Ok(entry) => {
                    let ghost ev = entry@;
                    entries.push(entry);
                    assert(entry_views(entries@) =~= entry_views(before).push(ev));
                    assert(forall|k: int| 0 <= k < before.len() ==> #[trigger] entries[k] == before[k]);
                },
                Err(e) => {
                    let ghost fb = failures@;
                    failures.push(e);
                    assert(failures@ =~= fb.push(e));
                },
            }
        }
        assert(all.take(n as int) =~= all);
        (entries, failures)
    }

    /// Reconstructs the command line of the compiler call on one source: the
    /// compiler, the flags, `-o` and the output when there is one, then the source.
    #[verifier::spinoff_prover]
    pub fn format_arguments(
        compiler: &PathBuf,
        source: &PathBuf,
        flags: &Vec<String>,
        output: Option<PathBuf>,
    ) -> (res: Result<Vec<String>, FormatError>)
        ensures
            match assembled_arguments(path_bytes(*compiler), path_bytes(*source), flags.deep_view(), optional_path(output)) {
                Some(a) => res matches Ok(v) && v.deep_view() == a,
                None => res == Err::<Vec<String>, FormatError>(FormatError::NotUtf8Path),
            },
    {
        let mut arguments: Vec<String> = Vec::new();
        let c = match into_string(compiler) {
            Ok(c) => c,
            Err(e) => return Err(e),
        };
        let ghost ct = c@;
        arguments.push(c);
        assert(arguments.deep_view() =~= seq![ct]);
        let mut i: usize = 0;
        while i < flags.len()
            invariant
                i <= flags.len(),
                arguments.deep_view() == seq![ct] + flags.deep_view().take(i as int),
            decreases flags.len() - i,
        {
            let ghost before = arguments.deep_view();
            arguments.push(flags[i].clone());
            assert(arguments.deep_view() =~= before.push(flags.deep_view()[i as int]));
            assert(flags.deep_view().take(i + 1) =~= flags.deep_view().take(i as int).push(
                flags.deep_view()[i as int],
            ));
            i = i + 1;
        }
        assert(flags.deep_view().take(flags.len() as int) =~= flags.deep_view());
        let ghost with_flags = arguments.deep_view();
        let ghost out = optional_path(output);
        match output {
            Some(file) => {
                arguments.push("-o".to_owned());
                let o = match into_string(&file) {
                    Ok(o) => o,
                    Err(e) => return Err(e),
                };
                let ghost ot = o@;
                arguments.push(o);
                assert(arguments.deep_view() =~= with_flags + seq!["-o"@, ot]);
            },
            None => {},
        }
        let ghost before_source = arguments.deep_view();
        let s = match into_string(source) {
            Ok(s) => s,
            Err(e) => return Err(e),
        };
        let ghost st = s@;
        arguments.push(s);
        assert(arguments.deep_view() =~= before_source + seq![st]);
        Ok(arguments)
    }

    /// The entry of one compiler pass. A preprocessing pass gives none; a
    /// compilation gives the entry of its source, with the paths formatted as the
    /// configuration asks. The current directory is read at most once for the pass,
    /// so an output is kept, when the configuration keeps it, whenever it is a path
    /// of the same kind as the source.
    #[verifier::spinoff_prover]
    pub fn try_convert_from_pass(
        &self,
        working_dir: &PathBuf,
        compiler: &PathBuf,
        pass: CompilerPass,
    ) -> (res: Result<Entry, FormatError>)
        ensures
            exists|cwd_readable: bool|
                entry_result(res) == #[trigger] converted(
                    self.absolute_paths(),
                    self.drops_output(),
                    path_bytes(*working_dir),
                    path_bytes(*compiler),
                    pass@,
                    cwd_readable,
                ),
            self.absolute_paths() && res is Ok ==> has_absolute_paths(res->Ok_0@),
            res is Ok && !self.drops_output() && (pass@ matches CompilerPassView::Compile {
                source,
                output: Some(o),
                ..
            } && starts_at_root(source) == starts_at_root(o)) ==> res->Ok_0.output is Some,
    {
        let ghost pv = pass@;
        let ghost wd = path_bytes(*working_dir);
        let ghost cb = path_bytes(*compiler);
        match pass {
            CompilerPass::Preprocess => {
                assert(converted(self.absolute_paths(), self.drops_output(), wd, cb, pv, true)
                    == Err::<EntryView, FormatError>(FormatError::PreprocessPass));
                Err(FormatError::PreprocessPass)
            },
            CompilerPass::Compile { source, output, flags } => {
                let ghost sb = path_bytes(source);
                let output_clone = match &output {
                    Some(o) => Some(copy_path(o)),
                    None => None,
                };
                assert(optional_path(output_clone) =~~= optional_path(output));
                let file = self.format_path(&source, working_dir);
                let ghost a = choose|r: bool| bytes_result(file) == formatted_path(
                    self.absolute_paths(), sb, wd, r);
                let file = match file {
                    Ok(f) => f,
                    Err(e) => {
                        assert(converted(self.absolute_paths(), self.drops_output(), wd, cb, pv, a)
                            == Err::<EntryView, FormatError>(e));
                        return Err(e);
                    },
                };
                // The one reading of the current directory for this pass: the one made
                // for the source, unless the output is the path that needs it.
                let mut reading: Ghost<bool> = Ghost(a);
                let out = if self.drop_output_field {
                    None
                } else {
                    match &output {
                        Some(o) => {
                            if self.use_absolute_path && is_absolute(o) && is_absolute(&source) {
                                // The current directory was read for the source already;
                                // a path that starts at the root is resolved the same way
                                // from any directory, so it is resolved from the file.
                                match absolutize_from_dir(o, &file) {
                                    Ok(p) => Some(p),
                                    Err(_) => None,
                                }
                            } else {
                                let r = self.format_path(o, working_dir);
                                proof {
                                    if !(self.absolute_paths() && starts_at_root(sb)) {
                                        reading@ = choose|r2: bool| bytes_result(r) == formatted_path(
                                            self.absolute_paths(), path_bytes(*o), wd, r2);
                                    }
                                }
                                match r {
                                    Ok(p) => Some(p),
                                    Err(_) => None,
                                }
                            }
                        },
                        None => None,
                    }
                };
                assert(bytes_result(Ok::<PathBuf, FormatError>(file)) == formatted_path(
                    self.absolute_paths(), sb, wd, reading@));
                let arguments = match Self::format_arguments(compiler, &source, &flags, output_clone) {
                    Ok(v) => v,
                    Err(e) => {
                        assert(converted(self.absolute_paths(), self.drops_output(), wd, cb, pv, reading@)
                            == Err::<EntryView, FormatError>(e));
                        return Err(e);
                    },
                };
                let directory = copy_path(working_dir);
                let entry = Entry { file, directory, output: out, arguments };
                assert(converted(self.absolute_paths(), self.drops_output(), wd, cb, pv, reading@)
                    == Ok::<EntryView, FormatError>(entry@));
                Ok(entry)
            },
        }
    }

    /// The path as the entry holds it: made absolute from `root` when the
    /// configuration asks for absolute paths, and as it is otherwise.
    ///
    /// A path made absolute starts at the root. With a working directory in normal
    /// form the result is in normal form too, and a path in normal form is given back
    /// as it is: so formatting a formatted path again gives it back (or fails when the
    /// current directory cannot be read).
    pub fn format_path(&self, path: &PathBuf, root: &PathBuf) -> (res: Result<PathBuf, FormatError>)
        ensures
            exists|cwd_readable: bool|
                bytes_result(res) == #[trigger] formatted_path(
                    self.absolute_paths(),
                    path_bytes(*path),
                    path_bytes(*root),
                    cwd_readable,
                ),
            self.absolute_paths() && res is Ok ==> starts_at_root(path_bytes(res->Ok_0)),
            self.absolute_paths() && res is Ok && is_normal_path(path_bytes(*root))
                ==> is_normal_path(path_bytes(res->Ok_0)),
            res is Ok && is_normal_path(path_bytes(*path)) ==> path_bytes(res->Ok_0) == path_bytes(*path),
    {
        let ghost pb = path_bytes(*path);
        let ghost rb = path_bytes(*root);
        if self.use_absolute_path {
            if is_absolute(path) {
                match absolutize_in_place(path) {
                    Ok(p) => {
                        assert(formatted_path(self.absolute_paths(), pb, rb, true) == Ok::<Seq<u8>, FormatError>(path_bytes(p)));
                        Ok(p)
                    },
                    Err(_) => {
                        assert(formatted_path(self.absolute_paths(), pb, rb, false) == Err::<Seq<u8>, FormatError>(
                            FormatError::CurrentDirUnavailable,
                        ));
                        Err(FormatError::CurrentDirUnavailable)
                    },
                }
            } else if !is_absolute(root) {
                assert(formatted_path(self.absolute_paths(), pb, rb, true) == Err::<Seq<u8>, FormatError>(
                    FormatError::RelativeWorkingDir,
                ));
                Err(FormatError::RelativeWorkingDir)
            } else {
                match absolutize_from_dir(path, root) {
                    Ok(p) => {
                        assert(formatted_path(self.absolute_paths(), pb, rb, true) == Ok::<Seq<u8>, FormatError>(path_bytes(p)));
                        Ok(p)
                    },
                    Err(_) => Err(FormatError::CurrentDirUnavailable),
                }
            }
        } else {
            let p = copy_path(path);
            assert(formatted_path(self.absolute_paths(), pb, rb, true) == Ok::<Seq<u8>, FormatError>(path_bytes(p)));
            Ok(p)
        }
    }
}

} // verus!
