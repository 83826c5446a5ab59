//! Paths as text, with the meaning that the platform gives them.
use vstd::prelude::*;

use crate::order::{before, Ranked};
use crate::text::{starts_with, texts};

verus! {

/// What a path says, component by component: paths that say the same have the same key, and the
/// order of paths is the dictionary order of their keys.
pub uninterp spec fn path_key(path: Seq<char>) -> Seq<int>;

/// A path with another one behind it, as `Path::join` puts them together.
pub uninterp spec fn path_join(base: Seq<char>, path: Seq<char>) -> Seq<char>;

/// The last component of a path when it is a name, as `Path::file_name` finds it.
pub uninterp spec fn path_file_name(path: Seq<char>) -> Option<Seq<char>>;

/// The extension of the file name of a path, as `Path::extension` finds it.
pub uninterp spec fn path_extension(path: Seq<char>) -> Option<Seq<char>>;

/// A path in quotation marks, with its special characters escaped, as its `Debug` form shows it.
pub uninterp spec fn quoted(path: Seq<char>) -> Seq<char>;

/// `Path::cmp` compares two paths component by component. It is a total order, so there is a key
/// for each path such that the order of paths is the dictionary order of the keys.
#[verifier::external_body]
fn path_order(a: &str, b: &str) -> (o: core::cmp::Ordering)
    ensures
        o == core::cmp::Ordering::Less <==> before(path_key(a@), path_key(b@)),
        o == core::cmp::Ordering::Equal <==> path_key(a@) == path_key(b@),
        o == core::cmp::Ordering::Greater <==> before(path_key(b@), path_key(a@)),
{
    std::path::Path::new(a).cmp(std::path::Path::new(b))
}

/// `Path::join` adjoins a path to a base.
#[verifier::external_body]
pub(crate) fn join_path(base: &str, path: &str) -> (r: String)
    ensures
        r@ == path_join(base@, path@),
{
    std::path::Path::new(base).join(path).to_string_lossy().to_string()
}

/// `Path::file_name` gives the last component of a path when it is a name.
#[verifier::external_body]
pub(crate) fn file_name(path: &str) -> (r: Option<String>)
    ensures
        match (r, path_file_name(path@)) {
            (Some(s), Some(name)) => s@ == name,
            (None, None) => true,
            _ => false,
        },
{
    std::path::Path::new(path).file_name().map(|s| s.to_string_lossy().to_string())
}

/// `Path::extension` gives what follows the last dot of the file name, when there is a file name
/// with a dot that does not begin it.
#[verifier::external_body]
pub(crate) fn extension(path: &str) -> (r: Option<String>)
    ensures
        match (r, path_extension(path@)) {
            (Some(s), Some(ext)) => s@ == ext,
            (None, None) => true,
            _ => false,
        },
{
    std::path::Path::new(path).extension().map(|s| s.to_string_lossy().to_string())
}

/// The `Debug` form of a `Path`: its text in quotation marks, escaped.
#[verifier::external_body]
pub(crate) fn quote(path: &str) -> (r: String)
    ensures
        r@ == quoted(path@),
{
    format!("{:?}", std::path::Path::new(path))
}

/// Two paths say the same, however they are written.
pub open spec fn same_path(a: Seq<char>, b: Seq<char>) -> bool {
    path_key(a) == path_key(b)
}

/// Whether two paths say the same.
pub fn is_same_path(a: &str, b: &str) -> (r: bool)
    ensures
        r == same_path(a@, b@),
{
    match path_order(a, b) {
        core::cmp::Ordering::Equal => true,
        _ => false,
    }
}

/// The file name of a path, or nothing where it has none.
pub open spec fn shown_name(path: Seq<char>) -> Seq<char> {
    match path_file_name(path) {
        Some(name) => name,
        None => Seq::empty(),
    }
}

/// The file name of a path, or an empty text.
pub fn name_or_empty(path: &str) -> (r: String)
    ensures
        r@ == shown_name(path@),
{
    match file_name(path) {
        Some(name) => name,
        None => String::new(),
    }
}

/// One of `dirs` says the same as `dir`.
pub open spec fn lists(dirs: Seq<Seq<char>>, dir: Seq<char>) -> bool {
    exists|i: int| 0 <= i < dirs.len() && same_path(#[trigger] dirs[i], dir)
}

/// `i` is the place of the first of `dirs` that says the same as `dir`.
pub open spec fn first_place(dirs: Seq<Seq<char>>, dir: Seq<char>, i: int) -> bool {
    &&& 0 <= i < dirs.len()
    &&& same_path(dirs[i], dir)
    &&& forall|j: int| 0 <= j < i ==> !same_path(#[trigger] dirs[j], dir)
}

/// The place of `dir` among `dirs`; the first one where it is not among them.
pub open spec fn place_of(dirs: Seq<Seq<char>>, dir: Seq<char>) -> int {
    if lists(dirs, dir) {
        choose|i: int| first_place(dirs, dir, i)
    } else {
        0
    }
}

/// No two of the directories say the same.
pub open spec fn all_different(dirs: Seq<Seq<char>>) -> bool {
    forall|i: int, j: int|
        0 <= i < j < dirs.len() ==> !same_path(#[trigger] dirs[i], #[trigger] dirs[j])
}

/// The first of `dirs` that says the same as `dir`.
pub fn find_dir(dirs: &Vec<String>, dir: &str) -> (r: Option<usize>)
    ensures
        match r {
            Some(i) => lists(texts(dirs@), dir@) && first_place(texts(dirs@), dir@, i as int)
                && place_of(texts(dirs@), dir@) == i,
            None => !lists(texts(dirs@), dir@) && place_of(texts(dirs@), dir@) == 0,
        },
{
    let ghost all = texts(dirs@);
    for i in 0..dirs.len()
        invariant
            all == texts(dirs@),
            forall|j: int| 0 <= j < i ==> !same_path(#[trigger] all[j], dir@),
    {
        assert(all[i as int] == dirs@[i as int]@);
        if is_same_path(dirs[i].as_str(), dir) {
            proof {
                assert(first_place(all, dir@, i as int));
                let k = choose|k: int| first_place(all, dir@, k);
                assert(first_place(all, dir@, k));
                if k < i {
                    assert(!same_path(all[k], dir@));
                } else if i < k {
                    assert(!same_path(all[i as int], dir@));
                }
            }
            return Some(i);
        }
    }
    None
}

/// A file resides in a directory when its path is that of the directory or goes on behind it
/// with another component.
pub open spec fn resides_in(path: Seq<char>, dir: Seq<char>) -> bool {
    &&& dir.is_prefix_of(path)
    &&& path.len() == dir.len() || (dir.len() > 0 && dir.last() == '/') || path[dir.len() as int]
        == '/'
}

/// Whether a file resides in a directory.
pub fn is_inside(path: &str, dir: &str) -> (r: bool)
    ensures
        r == resides_in(path@, dir@),
{
    if !starts_with(path, dir) {
        return false;
    }
    let whole = crate::text::characters(path);
    let head = crate::text::characters(dir);
    let n = head.len();
    if whole.len() == n {
        true
    } else if n > 0 && head[n - 1] == '/' {
        true
    } else {
        whole[n] == '/'
    }
}

/// A path that takes its place in the order of paths.
pub struct RankedPath {
    pub text: String,
}

impl Ranked for RankedPath {
    open spec fn rank(&self) -> Seq<int> {
        path_key(self.text@)
    }

    fn comes_before(&self, other: &Self) -> (b: bool) {
        match path_order(self.text.as_str(), other.text.as_str()) {
            core::cmp::Ordering::Less => true,
            _ => false,
        }
    }
}

/// A directory holds its own path and all that goes on from it behind a slash, and nothing that
/// goes on otherwise: a name that only begins like the directory is not in it.
pub proof fn directories_hold_what_goes_on_from_them(dir: Seq<char>, rest: Seq<char>, c: char)
    ensures
        resides_in(dir, dir),
        resides_in(dir + seq!['/'] + rest, dir),
        c != '/' && dir.len() > 0 && dir.last() != '/' ==> !resides_in(dir + seq![c] + rest, dir),
        dir.len() > 0 && dir.last() == '/' ==> resides_in(dir + rest, dir),
{
    assert(dir.subrange(0, dir.len() as int) =~= dir);
    let slashed = dir + seq!['/'] + rest;
    assert(slashed.subrange(0, dir.len() as int) =~= dir);
    assert(slashed[dir.len() as int] == '/');
    let other = dir + seq![c] + rest;
    assert(other[dir.len() as int] == c);
    assert((dir + rest).subrange(0, dir.len() as int) =~= dir);
}

/// What resides in a directory begins with its path, and what resides in what it holds resides in
/// it too.
pub proof fn directories_hold_what_their_directories_hold(
    path: Seq<char>,
    inner: Seq<char>,
    dir: Seq<char>,
)
    requires
        resides_in(path, inner),
    ensures
        forall|i: int| 0 <= i < inner.len() ==> #[trigger] path[i] == inner[i],
        path.len() >= inner.len(),
        resides_in(inner, dir) ==> resides_in(path, dir),
{
    assert forall|i: int| 0 <= i < inner.len() implies #[trigger] path[i] == inner[i] by {
        assert(path.subrange(0, inner.len() as int)[i] == path[i]);
    }
    if resides_in(inner, dir) {
        assert forall|i: int| 0 <= i < dir.len() implies #[trigger] path[i] == dir[i] by {
            assert(inner.subrange(0, dir.len() as int)[i] == inner[i]);
        }
        assert(path.subrange(0, dir.len() as int) =~= dir);
    }
}

/// The place of a directory is the first at which the list says the same, however often it does;
/// one that is not listed has the place of the first.
pub proof fn the_first_place_counts(dirs: Seq<Seq<char>>, dir: Seq<char>, i: int)
    requires
        0 <= i < dirs.len(),
    ensures
        same_path(dirs[i], dir) ==> lists(dirs, dir) && place_of(dirs, dir) <= i,
        lists(dirs, dir) ==> 0 <= place_of(dirs, dir) < dirs.len() && same_path(
            dirs[place_of(dirs, dir)],
            dir,
        ),
        (forall|j: int| 0 <= j < dirs.len() ==> !same_path(#[trigger] dirs[j], dir)) ==> !lists(
            dirs,
            dir,
        ) && place_of(dirs, dir) == 0,
{
    if lists(dirs, dir) {
        let m = choose|m: int| 0 <= m < dirs.len() && same_path(#[trigger] dirs[m], dir);
        lemma_has_first_place(dirs, dir, m);
        let k = place_of(dirs, dir);
        assert(first_place(dirs, dir, k));
        if i < k {
            assert(!same_path(dirs[i], dir));
        }
    }
}

proof fn lemma_has_first_place(dirs: Seq<Seq<char>>, dir: Seq<char>, m: int)
    requires
        0 <= m < dirs.len(),
        same_path(dirs[m], dir),
    ensures
        exists|i: int| first_place(dirs, dir, i),
    decreases m,
{
    if exists|j: int| 0 <= j < m && same_path(#[trigger] dirs[j], dir) {
        let j = choose|j: int| 0 <= j < m && same_path(#[trigger] dirs[j], dir);
        lemma_has_first_place(dirs, dir, j);
    } else {
        assert(first_place(dirs, dir, m));
    }
}

/// A path is shown by its file name where it has one, and by nothing otherwise; that two paths say
/// the same does not depend on their order.
pub proof fn paths_are_shown_by_their_names(path: Seq<char>, other: Seq<char>)
    ensures
        path_file_name(path) matches Some(name) ==> shown_name(path) == name,
        path_file_name(path) is None ==> shown_name(path).len() == 0,
        same_path(path, other) <==> same_path(other, path),
        same_path(path, path),
{
}

} // verus!
