//! Telling source files from flags on a compiler command line.

use vstd::prelude::*;
use vstd::string::StrSliceExecFns;
use crate::text::text_equals;

verus! {

/// The file name extensions of the sources that compilers take: headers, C, C++,
/// CUDA, Objective-C, preprocessed sources, assembly, Fortran, Go, BRIG, D and Ada.
pub open spec fn is_source_extension(e: Seq<char>) -> bool {
    ||| e == "h"@ || e == "hh"@ || e == "H"@ || e == "hp"@ || e == "hxx"@ || e == "hpp"@
    ||| e == "HPP"@ || e == "h++"@ || e == "tcc"@
    ||| e == "c"@ || e == "C"@
    ||| e == "cc"@ || e == "CC"@ || e == "c++"@ || e == "C++"@ || e == "cxx"@ || e == "cpp"@
    ||| e == "cp"@
    ||| e == "cu"@
    ||| e == "m"@ || e == "mi"@ || e == "mm"@ || e == "M"@ || e == "mii"@
    ||| e == "i"@ || e == "ii"@
    ||| e == "s"@ || e == "S"@ || e == "sx"@ || e == "asm"@
    ||| e == "f"@ || e == "for"@ || e == "ftn"@ || e == "F"@ || e == "FOR"@ || e == "fpp"@
    ||| e == "FPP"@ || e == "FTN"@ || e == "f90"@ || e == "f95"@ || e == "f03"@ || e == "f08"@
    ||| e == "F90"@ || e == "F95"@ || e == "F03"@ || e == "F08"@
    ||| e == "go"@
    ||| e == "brig"@
    ||| e == "d"@ || e == "di"@ || e == "dd"@
    ||| e == "ads"@ || e == "abd"@
}

/// Whether `k` is the position of the last `.` of `s`.
pub open spec fn is_last_dot(s: Seq<char>, k: int) -> bool {
    &&& 0 <= k < s.len()
    &&& s[k] == '.'
    &&& forall|j: int| k < j < s.len() ==> s[j] != '.'
}

/// An argument names a source file when it is no flag (it does not start with `-`)
/// and the text after its last `.` is a source extension.
pub open spec fn looks_like_source(arg: Seq<char>) -> bool {
    &&& !(arg.len() > 0 && arg[0] == '-')
    &&& exists|k: int| #[trigger] is_last_dot(arg, k) && is_source_extension(arg.subrange(k + 1, arg.len() as int))
}

/// Each extension of the fixed list (headers, C, C++, CUDA, Objective-C, preprocessed
/// sources, assembly, Fortran, Go, BRIG, D and Ada) makes a source: an argument that
/// is no flag, followed by a `.` and the extension, names a source file, whatever
/// comes before the dot. So `main.c`, `main.cc` and `lib/main.cpp` are sources.
pub proof fn law_listed_extensions_make_sources(name: Seq<char>, extension: Seq<char>)
    requires
        !(name.len() > 0 && name[0] == '-'),
        extension == "h"@ || extension == "hh"@ || extension == "H"@ || extension == "hp"@ || extension == "hxx"@
            || extension == "hpp"@ || extension == "HPP"@ || extension == "h++"@ || extension == "tcc"@ || extension == "c"@
            || extension == "C"@ || extension == "cc"@ || extension == "CC"@ || extension == "c++"@ || extension == "C++"@
            || extension == "cxx"@ || extension == "cpp"@ || extension == "cp"@ || extension == "cu"@ || extension == "m"@
            || extension == "mi"@ || extension == "mm"@ || extension == "M"@ || extension == "mii"@ || extension == "i"@
            || extension == "ii"@ || extension == "s"@ || extension == "S"@ || extension == "sx"@ || extension == "asm"@
            || extension == "f"@ || extension == "for"@ || extension == "ftn"@ || extension == "F"@ || extension == "FOR"@
            || extension == "fpp"@ || extension == "FPP"@ || extension == "FTN"@ || extension == "f90"@ || extension == "f95"@
            || extension == "f03"@ || extension == "f08"@ || extension == "F90"@ || extension == "F95"@ || extension == "F03"@
            || extension == "F08"@ || extension == "go"@ || extension == "brig"@ || extension == "d"@ || extension == "di"@
            || extension == "dd"@ || extension == "ads"@ || extension == "abd"@,
    ensures
        looks_like_source(name + seq!['.'] + extension),
{
    reveal_strlit("h");
    reveal_strlit("hh");
    reveal_strlit("H");
    reveal_strlit("hp");
    reveal_strlit("hxx");
    reveal_strlit("hpp");
    reveal_strlit("HPP");
    reveal_strlit("h++");
    reveal_strlit("tcc");
    reveal_strlit("c");
    reveal_strlit("C");
    reveal_strlit("cc");
    reveal_strlit("CC");
    reveal_strlit("c++");
    reveal_strlit("C++");
    reveal_strlit("cxx");
    reveal_strlit("cpp");
    reveal_strlit("cp");
    reveal_strlit("cu");
    reveal_strlit("m");
    reveal_strlit("mi");
    reveal_strlit("mm");
    reveal_strlit("M");
    reveal_strlit("mii");
    reveal_strlit("i");
    reveal_strlit("ii");
    reveal_strlit("s");
    reveal_strlit("S");
    reveal_strlit("sx");
    reveal_strlit("asm");
    reveal_strlit("f");
    reveal_strlit("for");
    reveal_strlit("ftn");
    reveal_strlit("F");
    reveal_strlit("FOR");
    reveal_strlit("fpp");
    reveal_strlit("FPP");
    reveal_strlit("FTN");
    reveal_strlit("f90");
    reveal_strlit("f95");
    reveal_strlit("f03");
    reveal_strlit("f08");
    reveal_strlit("F90");
    reveal_strlit("F95");
    reveal_strlit("F03");
    reveal_strlit("F08");
    reveal_strlit("go");
    reveal_strlit("brig");
    reveal_strlit("d");
    reveal_strlit("di");
    reveal_strlit("dd");
    reveal_strlit("ads");
    reveal_strlit("abd");
    let arg = name + seq!['.'] + extension;
    let k = name.len() as int;
    assert(forall|j: int| 0 <= j < extension.len() ==> extension[j] != '.');
    assert(is_last_dot(arg, k));
    assert(arg.subrange(k + 1, arg.len() as int) =~= extension);
    if name.len() == 0 {
        assert(arg[0] == '.');
    } else {
        assert(arg[0] == name[0]);
    }
}

/// An argument that starts with `-` is a flag, never a source, whatever its
/// extension.
pub proof fn law_dash_arguments_are_flags(arg: Seq<char>)
    requires
        arg.len() > 0,
        arg[0] == '-',
    ensures
        !looks_like_source(arg),
{
}

fn is_known_extension(e: &str) -> (res: bool)
    ensures
        res == is_source_extension(e@),
{
    text_equals(e, "h") || text_equals(e, "hh") || text_equals(e, "H") || text_equals(e, "hp")
        || text_equals(e, "hxx") || text_equals(e, "hpp") || text_equals(e, "HPP")
        || text_equals(e, "h++") || text_equals(e, "tcc") || text_equals(e, "c")
        || text_equals(e, "C") || text_equals(e, "cc") || text_equals(e, "CC")
        || text_equals(e, "c++") || text_equals(e, "C++") || text_equals(e, "cxx")
        || text_equals(e, "cpp") || text_equals(e, "cp") || text_equals(e, "cu")
        || text_equals(e, "m") || text_equals(e, "mi") || text_equals(e, "mm")
        || text_equals(e, "M") || text_equals(e, "mii") || text_equals(e, "i")
        || text_equals(e, "ii") || text_equals(e, "s") || text_equals(e, "S")
        || text_equals(e, "sx") || text_equals(e, "asm") || text_equals(e, "f")
        || text_equals(e, "for") || text_equals(e, "ftn") || text_equals(e, "F")
        || text_equals(e, "FOR") || text_equals(e, "fpp") || text_equals(e, "FPP")
        || text_equals(e, "FTN") || text_equals(e, "f90") || text_equals(e, "f95")
        || text_equals(e, "f03") || text_equals(e, "f08") || text_equals(e, "F90")
        || text_equals(e, "F95") || text_equals(e, "F03") || text_equals(e, "F08")
        || text_equals(e, "go") || text_equals(e, "brig") || text_equals(e, "d")
        || text_equals(e, "di") || text_equals(e, "dd") || text_equals(e, "ads")
        || text_equals(e, "abd")
}

/// Whether the command line argument names a source file.
pub fn looks_like_a_source_file(argument: &str) -> (res: bool)
    ensures
        res == looks_like_source(argument@),
{
    let n = argument.unicode_len();
    if n > 0 && argument.get_char(0) == '-' {
        return false;
    }
    let mut last_dot: Option<usize> = None;
    let mut i: usize = 0;
    for c in it: argument.chars()
        invariant
            it.seq() == argument@,
            i == it.index(),
            i <= n,
            n == argument@.len(),
            match last_dot {
                Some(k) => k < i && is_last_dot(argument@.subrange(0, i as int), k as int),
                None => forall|j: int| 0 <= j < i ==> argument@[j] != '.',
            },
    {
        if c == '.' {
            last_dot = Some(i);
        }
        assert(argument@.subrange(0, i + 1) =~= argument@.subrange(0, i as int).push(c));
        i = i + 1;
    }
    assert(argument@.subrange(0, n as int) =~= argument@);
    match last_dot {
        Some(k) => {
            let extension = argument.substring_char(k + 1, n);
            proof {
                assert(extension@ == argument@.subrange(k + 1, n as int));
                assert forall|m: int| #[trigger] is_last_dot(argument@, m) implies m == k by {
                    if m < k {
                        assert(argument@[k as int] == '.');
                    } else if m > k {
                        assert(argument@.subrange(0, n as int)[m] == '.');
                    }
                }
            }
            is_known_extension(extension)
        },
        None => {
            assert forall|m: int| !#[trigger] is_last_dot(argument@, m) by {
                if 0 <= m < n {
                    assert(argument@[m] != '.');
                }
            }
            false
        },
    }
}

} // verus!
