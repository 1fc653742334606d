//! Unix paths held as bytes, and their comparison by components, as
//! `std::path::Path` compares them.

use vstd::prelude::*;
use vstd::utf8::encode_utf8;
use std::path::PathBuf;
use crate::text::{lemma_split_nonempty, lemma_split_push, split_on};

verus! {

/// The owned path type of `std`, which the library holds its paths in.
#[verifier::external_type_specification]
#[verifier::external_body]
pub struct ExPathBuf(std::path::PathBuf);

/// The bytes of a path: what `OsStr::as_encoded_bytes` gives of it, which on Unix
/// are the bytes that the system takes for the path.
pub uninterp spec fn path_bytes(path: PathBuf) -> Seq<u8>;

/// Trusted: `OsStr::as_encoded_bytes` on the path, copied into a vector. Its
/// documentation says it gives the bytes of the string; they are what `path_bytes`
/// names.
#[verifier::external_body]
pub fn bytes_of(path: &PathBuf) -> (res: Vec<u8>)
    ensures
        res@ == path_bytes(*path),
{
    path.as_os_str().as_encoded_bytes().to_vec()
}

/// Trusted: `PathBuf::from` a string slice. The documentation of `OsStr` says that
/// a string slice converts to an OS string that holds its UTF-8 bytes.
#[verifier::external_body]
pub fn path_from_text(text: &str) -> (res: PathBuf)
    ensures
        path_bytes(res) == encode_utf8(text@),
{
    PathBuf::from(text)
}

/// Trusted: `<PathBuf as Clone>::clone`, which makes a copy of the path.
#[verifier::external_body]
pub fn copy_path(path: &PathBuf) -> (res: PathBuf)
    ensures
        path_bytes(res) == path_bytes(*path),
{
    path.clone()
}

/// The separator of path components.
pub open spec fn slash() -> u8 {
    0x2fu8
}

/// The bytes of each path of a list.
pub open spec fn path_views(paths: Seq<PathBuf>) -> Seq<Seq<u8>> {
    paths.map_values(|p: PathBuf| path_bytes(p))
}

/// Whether the path starts at the root.
pub open spec fn starts_at_root(path: Seq<u8>) -> bool {
    path.len() > 0 && path[0] == slash()
}

/// Whether a relative path starts with the current directory `.` as a component
/// of its own (the only place where `.` counts as a component).
pub open spec fn starts_at_current_dir(path: Seq<u8>) -> bool {
    &&& !starts_at_root(path)
    &&& path.len() > 0
    &&& path[0] == 0x2eu8
    &&& (path.len() == 1 || path[1] == slash())
}

/// Whether a piece between slashes is a component: neither empty nor `.`.
pub open spec fn is_component() -> spec_fn(Seq<u8>) -> bool {
    |s: Seq<u8>| s.len() > 0 && s != seq![0x2eu8]
}

/// The components of the path after its root or leading `.`, in their order.
pub open spec fn components(path: Seq<u8>) -> Seq<Seq<u8>> {
    split_on(path, slash()).filter(is_component())
}

/// Whether two paths are the same path: the same root, the same leading `.`, and
/// the same components. Repeated slashes, a trailing slash and `.` components
/// inside the path make no difference.
pub open spec fn same_path(a: Seq<u8>, b: Seq<u8>) -> bool {
    &&& starts_at_root(a) == starts_at_root(b)
    &&& starts_at_current_dir(a) == starts_at_current_dir(b)
    &&& components(a) == components(b)
}

/// Whether a piece between slashes is a plain name: neither empty, nor `.`, nor `..`.
pub open spec fn is_plain_name(s: Seq<u8>) -> bool {
    s.len() > 0 && s != seq![0x2eu8] && s != seq![0x2eu8, 0x2eu8]
}

/// Whether the path is in normal form, the form in which `path_absolutize` writes
/// the paths it makes: `/` alone, or `/` followed by plain names joined by single
/// slashes.
pub open spec fn is_normal_path(p: Seq<u8>) -> bool {
    &&& starts_at_root(p)
    &&& (p.len() == 1 || forall|i: int|
        0 <= i < split_on(p.drop_first(), slash()).len() ==> is_plain_name(
            #[trigger] split_on(p.drop_first(), slash())[i],
        ))
}

/// Every path is the same path as itself.
pub proof fn law_same_path_is_reflexive(a: Seq<u8>)
    ensures
        same_path(a, a),
{
}

/// Two paths are the same path exactly when they agree on whether they start at the
/// root and on whether they start with `.`, and have the same components in the same
/// order: a path that differs from another in any component, the directories
/// included, is another path, even where the last components (the file names) agree.
pub proof fn law_same_path_compares_every_component(a: Seq<u8>, b: Seq<u8>)
    ensures
        same_path(a, b) <==> {
            &&& starts_at_root(a) == starts_at_root(b)
            &&& starts_at_current_dir(a) == starts_at_current_dir(b)
            &&& components(a).len() == components(b).len()
            &&& forall|i: int| 0 <= i < components(a).len() ==> components(a)[i] == components(b)[i]
        },
{
    if starts_at_root(a) == starts_at_root(b) && starts_at_current_dir(a) == starts_at_current_dir(b)
        && components(a).len() == components(b).len() && (forall|i: int|
        0 <= i < components(a).len() ==> components(a)[i] == components(b)[i]) {
        assert(components(a) =~= components(b));
    }
}

fn starts_with_slash(path: &Vec<u8>) -> (res: bool)
    ensures
        res == starts_at_root(path@),
{
    path.len() > 0 && path[0] == 0x2fu8
}

fn starts_with_current_dir(path: &Vec<u8>) -> (res: bool)
    ensures
        res == starts_at_current_dir(path@),
{
    !starts_with_slash(path) && path.len() > 0 && path[0] == 0x2eu8 && (path.len() == 1 || path[1]
        == 0x2fu8)
}

fn is_component_piece(s: &Vec<u8>) -> (res: bool)
    ensures
        res == is_component()(s@),
{
    if s.len() == 0 {
        return false;
    }
    if s.len() == 1 && s[0] == 0x2eu8 {
        assert(s@ =~= seq![0x2eu8]);
        return false;
    }
    assert(s@ != seq![0x2eu8]) by {
        if s@ == seq![0x2eu8] {
            assert(s@.len() == 1 && s@[0] == 0x2eu8);
        }
    }
    true
}

/// The views of a list of byte strings.
pub open spec fn byte_views(v: Seq<Vec<u8>>) -> Seq<Seq<u8>> {
    v.map_values(|b: Vec<u8>| b@)
}

fn components_of(path: &Vec<u8>) -> (res: Vec<Vec<u8>>)
    ensures
        byte_views(res@) == components(path@),
{
    let ghost p = path@;
    let mut parts: Vec<Vec<u8>> = Vec::new();
    let mut current: Vec<u8> = Vec::new();
    proof {
        reveal(Seq::filter);
        assert(p.subrange(0, 0) =~= Seq::<u8>::empty());
        assert(split_on(Seq::<u8>::empty(), slash()).drop_last() =~= Seq::<Seq<u8>>::empty());
        assert(byte_views(parts@) =~= Seq::<Seq<u8>>::empty());
        assert(current@ =~= Seq::<u8>::empty());
    }
    let n = path.len();
    let mut i: usize = 0;
    while i < n
        invariant
            n == p.len(),
            p == path@,
            i <= n,
            current@ == split_on(p.subrange(0, i as int), slash()).last(),
            byte_views(parts@) == split_on(p.subrange(0, i as int), slash()).drop_last().filter(
                is_component(),
            ),
        decreases n - i,
    {
        let b = path[i];
        let ghost q = p.subrange(0, i as int);
        let ghost sq = split_on(q, slash());
        proof {
            assert(p.subrange(0, i + 1) =~= q.push(b));
            lemma_split_push(q, b, slash());
        }
        if b == 0x2fu8 {
            proof {
                assert(sq.drop_last().push(sq.last()) =~= sq);
                sq.drop_last().lemma_filter_push(sq.last(), is_component());
                assert(sq.push(Seq::<u8>::empty()).drop_last() =~= sq);
            }
            let keep = is_component_piece(&current);
            let ghost before = parts@;
            if keep {
                parts.push(current);
                assert(byte_views(parts@) =~= byte_views(before).push(sq.last()));
            }
            current = Vec::new();
            assert(current@ =~= Seq::<u8>::empty());
        } else {
            proof {
                let sr = sq.update(sq.len() - 1, sq.last().push(b));
                assert(sr.drop_last() =~= sq.drop_last());
            }
            current.push(b);
        }
        i = i + 1;
    }
    proof {
        assert(p.subrange(0, n as int) =~= p);
        let sp = split_on(p, slash());
        lemma_split_nonempty(p, slash());
        assert(sp.drop_last().push(sp.last()) =~= sp);
        sp.drop_last().lemma_filter_push(sp.last(), is_component());
    }
    let keep = is_component_piece(&current);
    let ghost before = parts@;
    if keep {
        parts.push(current);
        assert(byte_views(parts@) =~= byte_views(before).push(split_on(p, slash()).last()));
    }
    parts
}

fn same_bytes(a: &Vec<u8>, b: &Vec<u8>) -> (res: bool)
    ensures
        res == (a@ == b@),
{
    if a.len() != b.len() {
        return false;
    }
    let mut i: usize = 0;
    while i < a.len()
        invariant
            a.len() == b.len(),
            i <= a.len(),
            forall|j: int| 0 <= j < i ==> a@[j] == b@[j],
        decreases a.len() - i,
    {
        if a[i] != b[i] {
            return false;
        }
        i = i + 1;
    }
    assert(a@ =~= b@);
    true
}

fn same_path_bytes(a: &Vec<u8>, b: &Vec<u8>) -> (res: bool)
    ensures
        res == same_path(a@, b@),
{
    if starts_with_slash(a) != starts_with_slash(b) || starts_with_current_dir(a) != starts_with_current_dir(b) {
        return false;
    }
    let ca = components_of(a);
    let cb = components_of(b);
    assert(byte_views(ca@).len() == ca@.len());
    assert(byte_views(cb@).len() == cb@.len());
    if ca.len() != cb.len() {
        return false;
    }
    let mut i: usize = 0;
    while i < ca.len()
        invariant
            ca.len() == cb.len(),
            i <= ca.len(),
            forall|j: int| 0 <= j < i ==> ca@[j]@ == cb@[j]@,
            byte_views(ca@) == components(a@),
            byte_views(cb@) == components(b@),
        decreases ca.len() - i,
    {
        if !same_bytes(&ca[i], &cb[i]) {
            assert(byte_views(ca@)[i as int] != byte_views(cb@)[i as int]);
            assert(components(a@)[i as int] != components(b@)[i as int]);
            return false;
        }
        i = i + 1;
    }
    assert(byte_views(ca@) =~= byte_views(cb@));
    true
}

/// Whether the path starts at the root, as `Path::is_absolute` tells on Unix.
pub fn is_absolute(path: &PathBuf) -> (res: bool)
    ensures
        res == starts_at_root(path_bytes(*path)),
{
    let bytes = bytes_of(path);
    starts_with_slash(&bytes)
}

/// Whether two paths are the same path, compared by components as `Path` compares
/// them.
pub fn is_same_path(a: &PathBuf, b: &PathBuf) -> (res: bool)
    ensures
        res == same_path(path_bytes(*a), path_bytes(*b)),
{
    let x = bytes_of(a);
    let y = bytes_of(b);
    same_path_bytes(&x, &y)
}

} // verus!
