//! What an executed command means for the compilation database: the compiler
//! passes of a compiler call, and the recognition of a command as one.

use vstd::prelude::*;
use std::collections::HashMap;
use std::path::PathBuf;
use crate::paths::path_bytes;
use crate::clang::optional_path;

verus! {

/// One pass of a compiler over a source file.
#[derive(Debug, PartialEq, Eq)]
pub enum CompilerPass {
    /// The source is only preprocessed.
    Preprocess,
    /// The source is compiled, with the given flags, into the optional output.
    Compile { source: PathBuf, output: Option<PathBuf>, flags: Vec<String> },
}

/// The mathematical value of a compiler pass.
pub ghost enum CompilerPassView {
    Preprocess,
    Compile { source: Seq<u8>, output: Option<Seq<u8>>, flags: Seq<Seq<char>> },
}

impl View for CompilerPass {
    type V = CompilerPassView;

    open spec fn view(&self) -> CompilerPassView {
        match self {
            CompilerPass::Preprocess => CompilerPassView::Preprocess,
            CompilerPass::Compile { source, output, flags } => CompilerPassView::Compile {
                source: path_bytes(*source),
                output: optional_path(*output),
                flags: flags.deep_view(),
            },
        }
    }
}

/// A call of a compiler: the compiler, the directory it ran in, and its passes.
#[derive(Debug, PartialEq, Eq)]
pub struct CompilerCall {
    pub compiler: PathBuf,
    pub working_dir: PathBuf,
    pub passes: Vec<CompilerPass>,
}

/// The views of a sequence of passes.
pub open spec fn pass_views(passes: Seq<CompilerPass>) -> Seq<CompilerPassView> {
    passes.map_values(|p: CompilerPass| p@)
}

/// What a recognised command is.
#[derive(Debug, PartialEq, Eq)]
pub enum Meaning {
    /// A compiler call.
    Compiler { compiler: PathBuf, working_dir: PathBuf, passes: Vec<CompilerPass> },
}

/// The answer of a tool to an executed command.
#[derive(Debug, PartialEq, Eq)]
pub enum RecognitionResult {
    /// The tool knows the command: what it means, or why it could not tell.
    Recognized(Result<Meaning, String>),
    /// The tool does not know the command.
    NotRecognized,
}

/// An executed command, as the interception reported it.
#[derive(Debug, PartialEq, Eq)]
pub struct Execution {
    pub executable: PathBuf,
    pub arguments: Vec<String>,
    pub working_dir: PathBuf,
    pub environment: HashMap<String, String>,
}

} // verus!
