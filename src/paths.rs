use vstd::prelude::*;
use crate::tree::{clone_parts, PathParts};

verus! {

/// The component that stands for the root directory.
pub open spec fn root_part() -> Seq<char> {
    seq!['/']
}

/// The component that stands for the current directory.
pub open spec fn current_part() -> Seq<char> {
    seq!['.']
}

/// The component that stands for the parent directory.
pub open spec fn parent_part() -> Seq<char> {
    seq!['.', '.']
}

/// The extension given to every converted file.
pub open spec fn target_extension() -> Seq<char> {
    seq!['w', 'e', 'b', 'p']
}

/// Index of the last '.' in `name`, or -1 when there is none.
pub open spec fn last_dot(name: Seq<char>) -> int
    decreases name.len(),
{
    if name.len() == 0 {
        -1
    } else if name.last() == '.' {
        name.len() - 1
    } else {
        last_dot(name.drop_last())
    }
}

/// A file name split into its stem and its extension: the extension follows
/// the last '.', unless that dot opens the name or the name is "..".
pub open spec fn split_name(name: Seq<char>) -> (Seq<char>, Option<Seq<char>>) {
    if name == parent_part() || last_dot(name) < 1 {
        (name, None)
    } else {
        (name.subrange(0, last_dot(name)), Some(name.subrange(last_dot(name) + 1, name.len() as int)))
    }
}

/// The last component of a path, where it names a file or directory.
pub open spec fn file_name(p: PathParts) -> Option<Seq<char>> {
    if p.len() == 0 || p.last() == root_part() || p.last() == current_part() || p.last()
        == parent_part() {
        None
    } else {
        Some(p.last())
    }
}

/// The path without its last component; none for an empty path or a root.
pub open spec fn parent_of(p: PathParts) -> Option<PathParts> {
    if p.len() == 0 || p.last() == root_part() {
        None
    } else {
        Some(p.drop_last())
    }
}

/// The stem of a path's file name.
pub open spec fn stem_of_path(p: PathParts) -> Option<Seq<char>> {
    match file_name(p) {
        Some(n) => Some(split_name(n).0),
        None => None,
    }
}

/// Whether a path's file name has an extension.
pub open spec fn has_extension(p: PathParts) -> bool {
    match file_name(p) {
        Some(n) => split_name(n).1 is Some,
        None => false,
    }
}

/// Joins a path onto a base; an absolute path replaces the base.
pub open spec fn join(base: PathParts, rel: PathParts) -> PathParts {
    if rel.len() > 0 && rel[0] == root_part() {
        rel
    } else {
        base + rel
    }
}

/// The name of a converted file: the input's whole stem followed by the
/// target extension.
pub open spec fn output_name(stem: Seq<char>) -> Seq<char> {
    stem + seq!['.'] + target_extension()
}

/// The output location of an input file: its path relative to the input root,
/// joined onto the output root; the output root itself when the file does not
/// lie under the input root.
pub open spec fn mirrored_target(path: PathParts, input_root: PathParts, output_root: PathParts) -> PathParts {
    if input_root.len() <= path.len() && path.subrange(0, input_root.len() as int) == input_root {
        join(output_root, path.subrange(input_root.len() as int, path.len() as int))
    } else {
        output_root
    }
}

/// Where a converted file goes, and which directory is created first.
pub struct WritePlan {
    /// The directory to create, with its missing ancestors.
    pub create_dir: Option<Vec<String>>,
    /// The file to write.
    pub file: Vec<String>,
}

/// Why a single file could not be converted.
#[derive(Clone, Copy, Debug, PartialEq, Eq, Structural)]
pub enum FileError {
    /// The input path has no file name to derive an output name from.
    NoFileStem,
    /// The input could not be decoded as an image.
    NotAnImage,
    /// The encoder rejected the configuration or failed to encode.
    EncodeFailed,
    /// The output target has no parent directory to write into.
    NoParent,
    /// Creating the output directory, reading the input's size or writing
    /// the file failed.
    Io,
}

/// The plan for writing the converted file `stem.webp` (the whole stem kept),
/// given the output target and whether it exists. An existing target is a directory that
/// receives the file. Otherwise the target's parent receives it, and that
/// parent is created first where the target has an extension, the target
/// itself where it has none.
pub open spec fn write_plan(target: PathParts, exists: bool, stem: Seq<char>) -> Result<(Option<PathParts>, PathParts), FileError> {
    if exists {
        Ok((None, target.push(output_name(stem))))
    } else {
        match parent_of(target) {
            None => Err(FileError::NoParent),
            Some(parent) => Ok(
                (
                    Some(if has_extension(target) { parent } else { target }),
                    parent.push(output_name(stem)),
                ),
            ),
        }
    }
}

fn is_literal(s: &String, lit: &str) -> (r: bool)
    ensures
        r == (s@ == lit@),
{
    let n = s.as_str().unicode_len();
    let m = lit.unicode_len();
    if n != m {
        return false;
    }
    let mut i: usize = 0;
    while i < n
        invariant
            n == s@.len(),
            m == lit@.len(),
            n == m,
            i <= n,
            forall|j: int| 0 <= j < i ==> s@[j] == lit@[j],
        decreases n - i,
    {
        if s.as_str().get_char(i) != lit.get_char(i) {
            return false;
        }
        i = i + 1;
    }
    assert(s@ =~= lit@);
    true
}

pub(crate) fn is_root_part(s: &String) -> (r: bool)
    ensures
        r == (s@ == root_part()),
{
    proof {
        reveal_strlit("/");
        assert("/"@ =~= root_part());
    }
    is_literal(s, "/")
}

fn is_current_part(s: &String) -> (r: bool)
    ensures
        r == (s@ == current_part()),
{
    proof {
        reveal_strlit(".");
        assert("."@ =~= current_part());
    }
    is_literal(s, ".")
}

fn is_parent_part(s: &String) -> (r: bool)
    ensures
        r == (s@ == parent_part()),
{
    proof {
        reveal_strlit("..");
        assert(".."@ =~= parent_part());
    }
    is_literal(s, "..")
}

proof fn lemma_last_dot_bounds(name: Seq<char>)
    ensures
        -1 <= last_dot(name) < name.len(),
        last_dot(name) >= 0 ==> name[last_dot(name)] == '.',
    decreases name.len(),
{
    if name.len() > 0 && name.last() != '.' {
        lemma_last_dot_bounds(name.drop_last());
    }
}

/// Index of the last '.' in `name`, where there is one.
fn find_last_dot(name: &String) -> (r: Option<usize>)
    ensures
        r is None <==> last_dot(name@) == -1,
        r matches Some(k) ==> k == last_dot(name@),
{
    let n = name.as_str().unicode_len();
    let mut i: usize = n;
    assert(name@.subrange(0, n as int) =~= name@);
    while i > 0
        invariant
            n == name@.len(),
            i <= n,
            last_dot(name@) == last_dot(name@.subrange(0, i as int)),
        decreases i,
    {
        let ghost prefix = name@.subrange(0, i as int);
        assert(prefix.drop_last() =~= name@.subrange(0, i as int - 1));
        if name.as_str().get_char(i - 1) == '.' {
            return Some(i - 1);
        }
        i = i - 1;
    }
    assert(name@.subrange(0, 0) =~= Seq::<char>::empty());
    None
}

/// Splits a file name into its stem and its extension.
pub fn split_file_name(name: &String) -> (r: (String, Option<String>))
    ensures
        r.0@ == split_name(name@).0,
        r.1 is Some <==> split_name(name@).1 is Some,
        r.1 matches Some(e) ==> split_name(name@).1 == Some(e@),
{
    proof {
        lemma_last_dot_bounds(name@);
    }
    let dot = find_last_dot(name);
    match dot {
        Some(k) => {
            if is_parent_part(name) || k < 1 {
                (name.clone(), None)
            } else {
                let n = name.as_str().unicode_len();
                let stem = String::from_str(name.as_str().substring_char(0, k));
                let ext = String::from_str(name.as_str().substring_char(k + 1, n));
                (stem, Some(ext))
            }
        },
        None => (name.clone(), None),
    }
}

/// The file name of a path, where it has one.
fn file_name_of(p: &Vec<String>) -> (r: Option<&String>)
    ensures
        r is Some <==> file_name(p.deep_view()) is Some,
        r matches Some(n) ==> file_name(p.deep_view()) == Some(n@),
{
    let n = p.len();
    if n == 0 {
        return None;
    }
    let last = &p[n - 1];
    assert(p.deep_view().last() == last@);
    if is_root_part(last) || is_current_part(last) || is_parent_part(last) {
        None
    } else {
        Some(last)
    }
}

/// The stem of the file name of a path, the name that a converted file keeps.
pub fn file_stem(p: &Vec<String>) -> (r: Option<String>)
    ensures
        r is Some <==> stem_of_path(p.deep_view()) is Some,
        r matches Some(s) ==> stem_of_path(p.deep_view()) == Some(s@),
{
    match file_name_of(p) {
        Some(name) => {
            let (stem, _) = split_file_name(name);
            Some(stem)
        },
        None => None,
    }
}

/// The parent of a path, where it has one.
pub fn parent(p: &Vec<String>) -> (r: Option<Vec<String>>)
    ensures
        r is Some <==> parent_of(p.deep_view()) is Some,
        r matches Some(q) ==> parent_of(p.deep_view()) == Some(q.deep_view()),
{
    let n = p.len();
    if n == 0 || is_root_part(&p[n - 1]) {
        assert(n > 0 ==> p.deep_view().last() == p[n - 1]@);
        None
    } else {
        let mut q = clone_parts(p);
        q.pop();
        assert(q.deep_view() =~= p.deep_view().drop_last());
        Some(q)
    }
}

/// Appends the name of the converted file made from `stem`.
fn push_output_name(p: &mut Vec<String>, stem: &String)
    ensures
        final(p).deep_view() == old(p).deep_view().push(output_name(stem@)),
{
    proof {
        reveal_strlit(".webp");
    }
    let name = stem.clone().concat(".webp");
    assert(name@ =~= output_name(stem@));
    p.push(name);
    assert(final(p).deep_view() =~= old(p).deep_view().push(output_name(stem@)));
}

/// The output location of an input file: its path below the input root,
/// joined onto the output root; the output root itself when it does not lie
/// under the input root.
pub fn output_target(path: &Vec<String>, input_root: &Vec<String>, output_root: &Vec<String>) -> (r: Vec<String>)
    ensures
        r.deep_view() == mirrored_target(path.deep_view(), input_root.deep_view(), output_root.deep_view()),
{
    let n = path.len();
    let k = input_root.len();
    if k > n {
        return clone_parts(output_root);
    }
    let mut i: usize = 0;
    while i < k
        invariant
            k == input_root.len(),
            n == path.len(),
            k <= n,
            i <= k,
            forall|j: int| 0 <= j < i ==> path[j]@ == input_root[j]@,
        decreases k - i,
    {
        if path[i] != input_root[i] {
            proof {
                assert(path.deep_view().subrange(0, k as int)[i as int] != input_root.deep_view()[i as int]);
            }
            return clone_parts(output_root);
        }
        i = i + 1;
    }
    assert(path.deep_view().subrange(0, k as int) =~= input_root.deep_view());
    let ghost rel = path.deep_view().subrange(k as int, n as int);
    if k < n && is_root_part(&path[k]) {
        let mut r: Vec<String> = Vec::new();
        let mut j: usize = k;
        while j < n
            invariant
                k <= j <= n,
                n == path.len(),
                r.deep_view() =~= path.deep_view().subrange(k as int, j as int),
            decreases n - j,
        {
            let c = path[j].clone();
            let ghost before = r.deep_view();
            r.push(c);
            proof {
                assert(path.deep_view()[j as int] == c@);
                assert(r.deep_view() =~= before.push(c@));
                assert(path.deep_view().subrange(k as int, j + 1) =~= path.deep_view().subrange(
                    k as int,
                    j as int,
                ).push(c@));
            }
            j = j + 1;
        }
        return r;
    }
    let mut r = clone_parts(output_root);
    let mut j: usize = k;
    while j < n
        invariant
            k <= j <= n,
            n == path.len(),
            r.deep_view() =~= output_root.deep_view() + path.deep_view().subrange(k as int, j as int),
        decreases n - j,
    {
        let c = path[j].clone();
        let ghost before = r.deep_view();
        r.push(c);
        proof {
            assert(path.deep_view()[j as int] == c@);
            assert(r.deep_view() =~= before.push(c@));
            assert(output_root.deep_view() + path.deep_view().subrange(k as int, j + 1)
                =~= (output_root.deep_view() + path.deep_view().subrange(k as int, j as int)).push(c@));
        }
        j = j + 1;
    }
    r
}

/// Plans the write of a converted file named after `stem`, given the output
/// target and whether it exists on disk.
pub fn plan_write(target: &Vec<String>, exists: bool, stem: &String) -> (r: Result<WritePlan, FileError>)
    ensures
        match (r, write_plan(target.deep_view(), exists, stem@)) {
            (Ok(plan), Ok((dir, file))) => plan.file.deep_view() == file && (match plan.create_dir {
                Some(d) => dir == Some(d.deep_view()),
                None => dir is None,
            }),
            (Err(e), Err(f)) => e == f,
            _ => false,
        },
{
    if exists {
        let mut file = clone_parts(target);
        push_output_name(&mut file, stem);
        return Ok(WritePlan { create_dir: None, file });
    }
    match parent(target) {
        None => Err(FileError::NoParent),
        Some(dir) => {
            let extension = match file_name_of(target) {
                Some(name) => split_file_name(name).1.is_some(),
                None => false,
            };
            let create = if extension {
                clone_parts(&dir)
            } else {
                clone_parts(target)
            };
            let mut file = dir;
            push_output_name(&mut file, stem);
            Ok(WritePlan { create_dir: Some(create), file })
        },
    }
}

} // verus!
