//! A tool that recognises a compiler by the name of its executable.

use vstd::prelude::*;
use vstd::string::StrSliceExecFns;
use vstd::utf8::encode_utf8;
use crate::semantic::{pass_views, CompilerPass, CompilerPassView, Execution, Meaning, RecognitionResult};
use crate::source::{looks_like_a_source_file, looks_like_source};
use std::path::PathBuf;
use crate::paths::{
    components, copy_path, is_same_path, law_same_path_compares_every_component, path_bytes,
    path_from_text, path_views, same_path, starts_at_current_dir, starts_at_root,
};

verus! {

/// The arguments after the program name.
pub open spec fn after_program(args: Seq<Seq<char>>) -> Seq<Seq<char>> {
    if args.len() == 0 {
        args
    } else {
        args.drop_first()
    }
}

/// The test of an argument that names a source.
pub open spec fn is_source_argument() -> spec_fn(Seq<char>) -> bool {
    |a: Seq<char>| looks_like_source(a)
}

/// The test of an argument that is a flag.
pub open spec fn is_flag_argument() -> spec_fn(Seq<char>) -> bool {
    |a: Seq<char>| !looks_like_source(a)
}

/// The arguments after the program name that name source files, in their order.
pub open spec fn source_arguments(args: Seq<Seq<char>>) -> Seq<Seq<char>> {
    after_program(args).filter(is_source_argument())
}

/// The arguments after the program name that are not sources, in their order.
pub open spec fn flag_arguments(args: Seq<Seq<char>>) -> Seq<Seq<char>> {
    after_program(args).filter(is_flag_argument())
}

proof fn lemma_sources_and_flags_count(s: Seq<Seq<char>>)
    ensures
        s.filter(is_source_argument()).len() + s.filter(is_flag_argument()).len() == s.len(),
    decreases s.len(),
{
    reveal(Seq::filter);
    if s.len() > 0 {
        lemma_sources_and_flags_count(s.drop_last());
    }
}

/// Every argument after the program name is a source or a flag, and not both.
pub proof fn law_arguments_are_sources_or_flags(args: Seq<Seq<char>>)
    ensures
        source_arguments(args).len() + flag_arguments(args).len() == after_program(args).len(),
{
    lemma_sources_and_flags_count(after_program(args));
}

/// One compilation for each source, each with all the flags and no output.
pub open spec fn compile_passes(sources: Seq<Seq<char>>, flags: Seq<Seq<char>>) -> Seq<
    CompilerPassView,
> {
    sources.map_values(
        |s: Seq<char>| CompilerPassView::Compile { source: encode_utf8(s), output: None, flags },
    )
}

/// A tool that recognises a compiler by its executable, and reads its command
/// line naively: the arguments that look like source files are sources, and the
/// others are flags.
pub struct Generic {
    executables: Vec<PathBuf>,
}

impl Generic {
    /// The executables that the tool takes for compilers.
    pub closed spec fn executables_view(&self) -> Seq<Seq<u8>> {
        path_views(self.executables@)
    }

    /// Whether the tool takes the executable for one of its compilers.
    pub open spec fn knows(&self, executable: Seq<u8>) -> bool {
        exists|i: int|
            0 <= i < self.executables_view().len() && #[trigger] same_path(
                self.executables_view()[i],
                executable,
            )
    }

    /// The tool for the given compilers: it knows exactly the executables that are
    /// the same path as one of them (so an empty list knows none, and repeating a
    /// compiler changes nothing).
    pub fn from(compilers: &[PathBuf]) -> (res: Self)
        ensures
            res.executables_view() == path_views(compilers@),
            forall|p: Seq<u8>|
                #[trigger] res.knows(p) <==> exists|i: int|
                    0 <= i < compilers@.len() && same_path(path_bytes(compilers@[i]), p),
    {
        let mut executables: Vec<PathBuf> = Vec::new();
        let mut i: usize = 0;
        while i < compilers.len()
            invariant
                i <= compilers@.len(),
                path_views(executables@) =~= path_views(compilers@.take(i as int)),
            decreases compilers.len() - i,
        {
            let c = copy_path(&compilers[i]);
            let ghost old_executables = executables@;
            executables.push(c);
            assert(path_views(executables@) =~= path_views(old_executables).push(
                path_bytes(compilers@[i as int]),
            ));
            assert(compilers@.take(i + 1) =~= compilers@.take(i as int).push(compilers@[i as int]));
            assert(path_views(compilers@.take(i + 1)) =~= path_views(compilers@.take(i as int)).push(
                path_bytes(compilers@[i as int]),
            ));
            i = i + 1;
        }
        assert(compilers@.take(compilers@.len() as int) =~= compilers@);
        let res = Generic { executables };
        assert forall|p: Seq<u8>|
            #[trigger] res.knows(p) <==> exists|i: int|
                0 <= i < compilers@.len() && same_path(path_bytes(compilers@[i]), p) by {
            if res.knows(p) {
                let i = choose|i: int|
                    0 <= i < res.executables_view().len() && same_path(res.executables_view()[i], p);
                assert(res.executables_view()[i] == path_bytes(compilers@[i]));
            }
            if exists|i: int| 0 <= i < compilers@.len() && same_path(path_bytes(compilers@[i]), p) {
                let i = choose|i: int| 0 <= i < compilers@.len() && same_path(path_bytes(compilers@[i]), p);
                assert(res.executables_view()[i] == path_bytes(compilers@[i]));
            }
        }
        res
    }

    /// The tool takes an executable for a compiler only when it is one of the
    /// configured compilers written another way: it starts at the root (or with `.`)
    /// as that compiler does, and all its components, the directories as well as the
    /// file name, are that compiler's, in the same order. And every such executable
    /// is taken.
    pub proof fn law_known_executables_share_all_components(&self, executable: Seq<u8>)
        ensures
            self.knows(executable) <==> exists|i: int|
                0 <= i < self.executables_view().len() && {
                    let c = #[trigger] self.executables_view()[i];
                    &&& starts_at_root(c) == starts_at_root(executable)
                    &&& starts_at_current_dir(c) == starts_at_current_dir(executable)
                    &&& components(c) == components(executable)
                },
    {
        if self.knows(executable) {
            let i = choose|i: int|
                0 <= i < self.executables_view().len() && #[trigger] same_path(
                    self.executables_view()[i],
                    executable,
                );
            law_same_path_compares_every_component(self.executables_view()[i], executable);
        }
        if exists|i: int|
            0 <= i < self.executables_view().len() && {
                let c = #[trigger] self.executables_view()[i];
                &&& starts_at_root(c) == starts_at_root(executable)
                &&& starts_at_current_dir(c) == starts_at_current_dir(executable)
                &&& components(c) == components(executable)
            } {
            let i = choose|i: int|
                0 <= i < self.executables_view().len() && {
                    let c = #[trigger] self.executables_view()[i];
                    &&& starts_at_root(c) == starts_at_root(executable)
                    &&& starts_at_current_dir(c) == starts_at_current_dir(executable)
                    &&& components(c) == components(executable)
                };
            law_same_path_compares_every_component(self.executables_view()[i], executable);
            assert(same_path(self.executables_view()[i], executable));
        }
    }

    fn knows_executable(&self, executable: &PathBuf) -> (res: bool)
        ensures
            res == self.knows(path_bytes(*executable)),
    {
        let mut i: usize = 0;
        while i < self.executables.len()
            invariant
                i <= self.executables@.len(),
                forall|j: int| 0 <= j < i ==> !same_path(#[trigger] self.executables_view()[j], path_bytes(*executable)),
            decreases self.executables.len() - i,
        {
            if is_same_path(&self.executables[i], executable) {
                assert(same_path(self.executables_view()[i as int], path_bytes(*executable)));
                return true;
            }
            i = i + 1;
        }
        false
    }

    /// Recognises the execution of one of the compilers. Every argument after the
    /// program name that looks like a source file gives a compilation of that
    /// source, with all the other arguments as its flags; an execution without a
    /// source is recognised, with the reason that no source was found.
    #[verifier::spinoff_prover]
    pub fn recognize(&self, x: &Execution) -> (res: RecognitionResult)
        ensures
            res is NotRecognized <==> !self.knows(path_bytes(x.executable)),
            (exists|i: int|
                0 <= i < self.executables_view().len() && self.executables_view()[i]
                    == path_bytes(x.executable)) ==> !(res is NotRecognized),
            res matches RecognitionResult::Recognized(Err(reason)) ==> {
                &&& source_arguments(x.arguments.deep_view()).len() == 0
                &&& reason@ == "source file is not found"@
            },
            res matches RecognitionResult::Recognized(Ok(Meaning::Compiler { compiler, working_dir, passes })) ==> {
                &&& source_arguments(x.arguments.deep_view()).len() > 0
                &&& path_bytes(compiler) == path_bytes(x.executable)
                &&& path_bytes(working_dir) == path_bytes(x.working_dir)
                &&& pass_views(passes@) == compile_passes(
                    source_arguments(x.arguments.deep_view()),
                    flag_arguments(x.arguments.deep_view()),
                )
            },
            self.knows(path_bytes(x.executable)) && source_arguments(x.arguments.deep_view()).len() == 0
                ==> res is Recognized && res->Recognized_0 is Err,
    {
        proof {
            if exists|i: int|
                0 <= i < self.executables_view().len() && self.executables_view()[i]
                    == path_bytes(x.executable) {
                let i = choose|i: int|
                    0 <= i < self.executables_view().len() && self.executables_view()[i]
                        == path_bytes(x.executable);
                assert(same_path(self.executables_view()[i], path_bytes(x.executable)));
            }
        }
        if !self.knows_executable(&x.executable) {
            return RecognitionResult::NotRecognized;
        }
        let ghost args = x.arguments.deep_view();
        let mut flags: Vec<String> = Vec::new();
        let mut sources: Vec<PathBuf> = Vec::new();
        let ghost mut source_texts: Seq<Seq<char>> = Seq::empty();
        let n = x.arguments.len();
        let mut i: usize = if n == 0 { 0 } else { 1 };
        proof {
            reveal(Seq::filter);
            assert(args.subrange(i as int, i as int) =~= Seq::<Seq<char>>::empty());
            assert(Seq::<Seq<char>>::empty().filter(is_flag_argument()) =~= Seq::<Seq<char>>::empty());
            assert(Seq::<Seq<char>>::empty().filter(is_source_argument()) =~= Seq::<Seq<char>>::empty());
        }
        let ghost start = i as int;
        while i < n
            invariant
                n == x.arguments@.len(),
                args == x.arguments.deep_view(),
                start == (if n == 0 { 0int } else { 1int }),
                start <= i <= n,
                flags.deep_view() == args.subrange(start, i as int).filter(is_flag_argument()),
                source_texts == args.subrange(start, i as int).filter(is_source_argument()),
                path_views(sources@) == source_texts.map_values(|t: Seq<char>| encode_utf8(t)),
            decreases n - i,
        {
            let argument = &x.arguments[i];
            let ghost a = argument@;
            let ghost before = args.subrange(start, i as int);
            proof {
                assert(args.subrange(start, i + 1) =~= before.push(a));
                before.lemma_filter_push(a, is_flag_argument());
                before.lemma_filter_push(a, is_source_argument());
            }
            if looks_like_a_source_file(argument.as_str()) {
                let ghost old_sources = sources@;
                sources.push(path_from_text(argument.as_str()));
                proof {
                    assert(path_views(sources@) =~= path_views(old_sources).push(encode_utf8(a)));
                    assert(source_texts.push(a).map_values(|t: Seq<char>| encode_utf8(t)) =~= source_texts.map_values(|t: Seq<char>| encode_utf8(t)).push(encode_utf8(a)));
                    source_texts = source_texts.push(a);
                }
            } else {
                let ghost old_flags = flags.deep_view();
                flags.push(argument.clone());
                assert(flags.deep_view() =~= old_flags.push(a));
            }
            i = i + 1;
        }
        proof {
            assert(args.subrange(start, n as int) =~= after_program(args));
        }
        if sources.len() == 0 {
            return RecognitionResult::Recognized(Err("source file is not found".to_owned()));
        }
        let mut passes: Vec<CompilerPass> = Vec::new();
        let mut j: usize = 0;
        while j < sources.len()
            invariant
                j <= sources@.len(),
                source_texts.len() == sources@.len(),
                path_views(sources@) == source_texts.map_values(|t: Seq<char>| encode_utf8(t)),
                pass_views(passes@) =~= compile_passes(source_texts.take(j as int), flags.deep_view()),
            decreases sources.len() - j,
        {
            let source = copy_path(&sources[j]);
            let these_flags = flags.clone();
            proof {
                assert(path_views(sources@)[j as int] == path_bytes(sources@[j as int]));
                assert(these_flags.deep_view() =~= flags.deep_view());
                assert(source_texts.take(j + 1) =~= source_texts.take(j as int).push(source_texts[j as int]));
            }
            let ghost old_passes = passes@;
            passes.push(CompilerPass::Compile { source, output: None, flags: these_flags });
            assert(pass_views(passes@) =~= pass_views(old_passes).push(passes@[j as int]@));
            j = j + 1;
        }
        assert(source_texts.take(sources@.len() as int) =~= source_texts);
        let compiler = copy_path(&x.executable);
        let working_dir = copy_path(&x.working_dir);
        RecognitionResult::Recognized(Ok(Meaning::Compiler { compiler, working_dir, passes }))
    }
}

} // verus!
