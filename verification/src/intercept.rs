//! The environment of an intercepted build: where the wrapper executables or the
//! preload library go in a `PATH`-like variable, and which variables the build
//! command is started with.

use vstd::prelude::*;
use vstd::string::StringExecFns;
use std::path::PathBuf;
use crate::paths::{bytes_of, path_bytes};
use crate::text::{decode_text, lemma_split_nonempty, lemma_split_push, push_char, split_on, utf8_text};

verus! {

/// The separator of the entries of a `PATH`-like variable.
pub open spec fn path_separator() -> char {
    ':'
}

/// The pieces glued together with `sep` between each two neighbours.
pub open spec fn join_with(parts: Seq<Seq<char>>, sep: char) -> Seq<char>
    decreases parts.len(),
{
    if parts.len() == 0 {
        Seq::<char>::empty()
    } else if parts.len() == 1 {
        parts[0]
    } else {
        join_with(parts.drop_last(), sep).push(sep) + parts.last()
    }
}

/// Whether an entry is other than `first`.
pub open spec fn differs_from(first: Seq<char>) -> spec_fn(Seq<char>) -> bool {
    |p: Seq<char>| p != first
}

/// The entries of the `PATH`-like value `original` other than `first`, in their order.
pub open spec fn entries_other_than(original: Seq<char>, first: Seq<char>) -> Seq<Seq<char>> {
    split_on(original, path_separator()).filter(differs_from(first))
}

/// The value `original` with `first` moved (or put) in front: `first`, then every
/// entry of `original` that differs from `first`, joined by the separator.
pub open spec fn with_first_entry(original: Seq<char>, first: Seq<char>) -> Seq<char> {
    join_with(seq![first] + entries_other_than(original, first), path_separator())
}

proof fn lemma_join_push(parts: Seq<Seq<char>>, x: Seq<char>, sep: char)
    requires
        parts.len() >= 1,
    ensures
        join_with(parts.push(x), sep) == join_with(parts, sep).push(sep) + x,
{
    assert(parts.push(x).drop_last() =~= parts);
}

/// One more entry: the join grows by the separator and the entry when the entry is
/// kept, and stays as it is when the entry equals `first`.
proof fn lemma_keep_entry(done: Seq<Seq<char>>, x: Seq<char>, first: Seq<char>)
    ensures
        join_with(seq![first] + done.push(x).filter(differs_from(first)), ':') == if x
            != first {
            join_with(seq![first] + done.filter(differs_from(first)), ':').push(':') + x
        } else {
            join_with(seq![first] + done.filter(differs_from(first)), ':')
        },
{
    let f = done.filter(differs_from(first));
    done.lemma_filter_push(x, differs_from(first));
    if x != first {
        assert(seq![first] + f.push(x) =~= (seq![first] + f).push(x));
        lemma_join_push(seq![first] + f, x, ':');
    }
}

/// Whether the text holds no separator, so that it reads as one entry.
pub open spec fn is_single_entry(s: Seq<char>) -> bool {
    forall|i: int| 0 <= i < s.len() ==> s[i] != path_separator()
}

proof fn lemma_split_append_entry(a: Seq<char>, x: Seq<char>, sep: char)
    requires
        forall|i: int| 0 <= i < x.len() ==> x[i] != sep,
    ensures
        split_on(a + x, sep) == split_on(a, sep).update(
            split_on(a, sep).len() - 1,
            split_on(a, sep).last() + x,
        ),
    decreases x.len(),
{
    lemma_split_nonempty(a, sep);
    let sa = split_on(a, sep);
    if x.len() == 0 {
        assert(a + x =~= a);
        assert(sa.last() + x =~= sa.last());
        assert(sa.update(sa.len() - 1, sa.last()) =~= sa);
    } else {
        let y = x.drop_last();
        let c = x.last();
        lemma_split_append_entry(a, y, sep);
        assert(a + x =~= (a + y).push(c));
        lemma_split_push(a + y, c, sep);
        assert((sa.last() + y).push(c) =~= sa.last() + x);
        assert(sa.update(sa.len() - 1, sa.last() + y).update(sa.len() - 1, sa.last() + x)
            =~= sa.update(sa.len() - 1, sa.last() + x));
    }
}

proof fn lemma_split_join(parts: Seq<Seq<char>>, sep: char)
    requires
        parts.len() >= 1,
        forall|i: int, j: int| 0 <= i < parts.len() && 0 <= j < parts[i].len() ==> parts[i][j] != sep,
    ensures
        split_on(join_with(parts, sep), sep) == parts,
    decreases parts.len(),
{
    let e = Seq::<char>::empty();
    if parts.len() == 1 {
        assert(parts[0] =~= e + parts[0]);
        lemma_split_append_entry(e, parts[0], sep);
        assert(split_on(e, sep).update(0, e + parts[0]) =~= parts);
    } else {
        let init = parts.drop_last();
        let x = parts.last();
        assert forall|i: int, j: int| 0 <= i < init.len() && 0 <= j < init[i].len() implies init[i][j] != sep by {
            assert(init[i] == parts[i]);
        }
        lemma_split_join(init, sep);
        let j = join_with(init, sep);
        lemma_split_push(j, sep, sep);
        assert forall|k: int| 0 <= k < x.len() implies x[k] != sep by {
            assert(x == parts[parts.len() - 1]);
        }
        lemma_split_append_entry(j.push(sep), x, sep);
        assert(init.push(e).update(init.len() as int, e + x) =~= parts);
    }
}

proof fn lemma_split_entries_single(s: Seq<char>, sep: char)
    ensures
        forall|i: int, j: int|
            0 <= i < split_on(s, sep).len() && 0 <= j < split_on(s, sep)[i].len()
                ==> split_on(s, sep)[i][j] != sep,
    decreases s.len(),
{
    if s.len() > 0 {
        lemma_split_entries_single(s.drop_last(), sep);
        lemma_split_nonempty(s.drop_last(), sep);
    }
}

proof fn lemma_filter_twice(s: Seq<Seq<char>>, pred: spec_fn(Seq<char>) -> bool)
    ensures
        s.filter(pred).filter(pred) == s.filter(pred),
    decreases s.len(),
{
    reveal(Seq::filter);
    if s.len() > 0 {
        lemma_filter_twice(s.drop_last(), pred);
        let f = s.drop_last().filter(pred);
        if pred(s.last()) {
            assert(f.push(s.last()).drop_last() =~= f);
        }
    }
}

/// The entries of the new value are `first`, then the entries of `original` that
/// differ from `first`, in their order: `first` stands once, and in front.
pub proof fn law_first_entry_stands_once_in_front(original: Seq<char>, first: Seq<char>)
    requires
        is_single_entry(first),
    ensures
        split_on(with_first_entry(original, first), path_separator()) == seq![first]
            + entries_other_than(original, first),
{
    let k = entries_other_than(original, first);
    let parts = seq![first] + k;
    lemma_split_entries_single(original, ':');
    assert forall|i: int, j: int| 0 <= i < parts.len() && 0 <= j < parts[i].len() implies parts[i][j] != ':' by {
        if i > 0 {
            let sp = split_on(original, ':');
            assert(parts[i] == k[i - 1]);
            assert(k.contains(k[i - 1]));
            sp.lemma_filter_contains_rev(differs_from(first), k[i - 1]);
            let m = choose|m: int| 0 <= m < sp.len() && sp[m] == k[i - 1];
        }
    }
    lemma_split_join(parts, ':');
}

/// Putting the same entry in front a second time changes nothing.
pub proof fn law_insert_is_idempotent(original: Seq<char>, first: Seq<char>)
    requires
        is_single_entry(first),
    ensures
        with_first_entry(with_first_entry(original, first), first) == with_first_entry(
            original,
            first,
        ),
{
    let k = entries_other_than(original, first);
    law_first_entry_stands_once_in_front(original, first);
    let d = differs_from(first);
    Seq::filter_distributes_over_add(seq![first], k, d);
    reveal(Seq::filter);
    assert(seq![first].drop_last() =~= Seq::<Seq<char>>::empty());
    assert(Seq::<Seq<char>>::empty().filter(d) =~= Seq::<Seq<char>>::empty());
    assert(seq![first].filter(d) =~= Seq::<Seq<char>>::empty());
    lemma_filter_twice(split_on(original, ':'), d);
    assert(Seq::<Seq<char>>::empty() + k =~= k);
}

/// The variable through which the intercepted processes find the collector.
pub const KEY_DESTINATION: &'static str = "INTERCEPT_REPORTER_ADDRESS";

/// The variable through which the dynamic linker preloads libraries.
pub const KEY_PRELOAD_PATH: &'static str = "LD_PRELOAD";

/// The variable that holds the search path of executables.
pub const KEY_PATH: &'static str = "PATH";

/// The text of a path, or the empty text when the path is not UTF-8.
pub open spec fn text_or_empty(path: Seq<u8>) -> Seq<char> {
    match utf8_text(path) {
        Some(t) => t,
        None => Seq::<char>::empty(),
    }
}

/// What an intercepted build needs in its environment, in one of the two modes.
pub enum InterceptEnvironment {
    /// The wrapper executables are in `bin_dir`, which goes in front of `PATH`.
    Wrapper { bin_dir: PathBuf, address: String },
    /// The library at `path` is preloaded into every process.
    Preload { path: PathBuf, address: String },
}

impl InterceptEnvironment {
    /// The name of the variable whose value the mode changes.
    pub open spec fn spec_updated_variable(&self) -> Seq<char> {
        match self {
            InterceptEnvironment::Wrapper { .. } => KEY_PATH@,
            InterceptEnvironment::Preload { .. } => KEY_PRELOAD_PATH@,
        }
    }

    /// The path that goes in front of the changed variable.
    pub open spec fn spec_inserted_path(&self) -> Seq<u8> {
        match self {
            InterceptEnvironment::Wrapper { bin_dir, .. } => path_bytes(*bin_dir),
            InterceptEnvironment::Preload { path, .. } => path_bytes(*path),
        }
    }

    /// The address of the collector.
    pub open spec fn spec_address(&self) -> Seq<char> {
        match self {
            InterceptEnvironment::Wrapper { address, .. } => address@,
            InterceptEnvironment::Preload { address, .. } => address@,
        }
    }

    /// The name of the variable whose current value `environment` takes.
    pub fn updated_variable(&self) -> (res: &'static str)
        ensures
            res@ == self.spec_updated_variable(),
    {
        match self {
            InterceptEnvironment::Wrapper { .. } => KEY_PATH,
            InterceptEnvironment::Preload { .. } => KEY_PRELOAD_PATH,
        }
    }

    /// The variables that the build command is started with, given the current
    /// value of the variable that the mode changes: that variable with the mode's
    /// path put in front, and the address of the collector. The current
    /// environment itself is left as it is.
    pub fn environment(&self, current_value: &str) -> (res: Vec<(String, String)>)
        ensures
            res@.len() == 2,
            res@[0].0@ == self.spec_updated_variable(),
            res@[0].1@ == with_first_entry(current_value@, text_or_empty(self.spec_inserted_path())),
            res@[1].0@ == KEY_DESTINATION@,
            res@[1].1@ == self.spec_address(),
    {
        let (name, path, address) = match self {
            InterceptEnvironment::Wrapper { bin_dir, address } => (KEY_PATH, bin_dir, address),
            InterceptEnvironment::Preload { path, address } => (KEY_PRELOAD_PATH, path, address),
        };
        let updated = Self::insert_to_path(current_value, Self::path_to_string(path));
        vec![(name.to_owned(), updated), (KEY_DESTINATION.to_owned(), address.clone())]
    }

    /// Puts `first` in front of the `PATH`-like value `original`, and drops every other
    /// occurrence of `first` from it.
    #[verifier::spinoff_prover]
    pub fn insert_to_path(original: &str, first: String) -> (res: String)
        ensures
            res@ == with_first_entry(original@, first@),
    {
        let ghost orig = original@;
        let mut out = first.clone();
        let mut current = String::new();
        proof {
            assert(orig.subrange(0, 0) =~= Seq::<char>::empty());
            reveal(Seq::filter);
            assert(split_on(Seq::<char>::empty(), ':').drop_last() =~= Seq::<Seq<char>>::empty());
            assert(Seq::<Seq<char>>::empty().filter(differs_from(first@)) =~= Seq::<
                Seq<char>,
            >::empty());
            assert(seq![first@] + Seq::<Seq<char>>::empty() =~= seq![first@]);
        }
        let ghost mut i: int = 0;
        for c in it: original.chars()
            invariant
                it.seq() == orig,
                i == it.index(),
                0 <= i <= orig.len(),
                current@ == split_on(orig.subrange(0, i), ':').last(),
                out@ == join_with(
                    seq![first@] + split_on(orig.subrange(0, i), ':').drop_last().filter(differs_from(first@)),
                    ':',
                ),
        {
            let ghost p = orig.subrange(0, i);
            proof {
                assert(c == orig[i]);
                assert(orig.subrange(0, i + 1) =~= p.push(c));
                lemma_split_push(p, c, ':');
            }
            if c == ':' {
                proof {
                    let sp = split_on(p, ':');
                    assert(sp.drop_last().push(sp.last()) =~= sp);
                    lemma_keep_entry(sp.drop_last(), sp.last(), first@);
                    assert(sp.push(Seq::<char>::empty()).drop_last() =~= sp);
                }
                if current != first {
                    push_char(&mut out, ':');
                    out.append(current.as_str());
                }
                current = String::new();
            } else {
                proof {
                    let sp = split_on(p, ':');
                    let sq = sp.update(sp.len() - 1, sp.last().push(c));
                    assert(sq.drop_last() =~= sp.drop_last());
                }
                push_char(&mut current, c);
            }
            proof {
                i = i + 1;
            }
        }
        proof {
            assert(orig.subrange(0, orig.len() as int) =~= orig);
            let sp = split_on(orig, ':');
            lemma_split_nonempty(orig, ':');
            assert(sp.drop_last().push(sp.last()) =~= sp);
            lemma_keep_entry(sp.drop_last(), sp.last(), first@);
        }
        if current != first {
            push_char(&mut out, ':');
            out.append(current.as_str());
        }
        out
    }

    /// The text of a path, or the empty text when it is not UTF-8.
    pub fn path_to_string(path: &PathBuf) -> (res: String)
        ensures
            res@ == text_or_empty(path_bytes(*path)),
    {
        let bytes = bytes_of(path);
        match decode_text(bytes.as_slice()) {
            Some(t) => t,
            None => String::new(),
        }
    }
}

/// The exit code that the intercepting process passes on from the build command:
/// the low byte of the status code when there is one. `None` stands for the
/// failure code that is used when the command was ended by a signal.
pub fn exit_code(status_code: Option<i32>) -> (res: Option<u8>)
    ensures
        match status_code {
            Some(c) => res == Some(#[verifier::truncate] (c as u8)),
            None => res is None,
        },
{
    match status_code {
        Some(c) => {
            Some(#[verifier::truncate] (c as u8))
        },
        None => None,
    }
}

} // verus!
