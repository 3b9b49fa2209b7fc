//! An abstract model of the file system, for stating what the host's
//! directory creation and file copying do: a set of existing directories
//! and a map from file paths to their bytes. The laws of the resolver,
//! the seeder and the copier are proved over this model.
use vstd::prelude::*;
use crate::paths::sep;

verus! {

/// The file-system state the library's operations touch: which
/// directories exist, and which bytes each file path holds.
#[verifier::ext_equal]
pub struct FsModel {
    pub dirs: Set<Seq<char>>,
    pub files: Map<Seq<char>, Seq<u8>>,
}

/// The proper ancestors of directory `d`: every prefix that ends just
/// before a separator, the empty prefix aside.
pub open spec fn ancestor_dirs(d: Seq<char>) -> Set<Seq<char>> {
    Set::new(
        |p: Seq<char>|
            exists|i: int| 0 < i < d.len() && d[i] == sep() && p == d.subrange(0, i),
    )
}

/// Creating directory `d` with all its missing ancestors: afterwards `d`
/// and its ancestors exist; files are untouched.
pub open spec fn create_dir_all(fs: FsModel, d: Seq<char>) -> FsModel {
    FsModel { dirs: fs.dirs.union(ancestor_dirs(d)).insert(d), files: fs.files }
}

/// Copying the file at `src` to `dst`: `dst` now holds the bytes `src`
/// held, whatever stood at `dst` before is gone, and nothing else moves.
pub open spec fn copy_file(fs: FsModel, src: Seq<char>, dst: Seq<char>) -> FsModel {
    FsModel { dirs: fs.dirs, files: fs.files.insert(dst, fs.files[src]) }
}

/// Performing a sequence of copies, in order.
pub open spec fn apply_copies(fs: FsModel, pairs: Seq<(Seq<char>, Seq<char>)>) -> FsModel
    decreases pairs.len(),
{
    if pairs.len() == 0 {
        fs
    } else {
        copy_file(apply_copies(fs, pairs.drop_last()), pairs.last().0, pairs.last().1)
    }
}

/// The destinations a sequence of copies writes to.
pub open spec fn destinations(pairs: Seq<(Seq<char>, Seq<char>)>) -> Set<Seq<char>> {
    Set::new(|p: Seq<char>| exists|i: int| 0 <= i < pairs.len() && pairs[i].1 == p)
}

/// Resolving a well-known directory is idempotent: creating `d` when it
/// (and its ancestors) already stand changes nothing, and `d` exists
/// afterwards either way.
pub proof fn lemma_create_dir_all_idempotent(fs: FsModel, d: Seq<char>)
    ensures
        create_dir_all(create_dir_all(fs, d), d) == create_dir_all(fs, d),
        create_dir_all(fs, d).dirs.contains(d),
{
    assert(create_dir_all(create_dir_all(fs, d), d).dirs =~= create_dir_all(fs, d).dirs);
    assert(create_dir_all(create_dir_all(fs, d), d) =~= create_dir_all(fs, d));
}

/// Copying over an existing destination overwrites it: afterwards the
/// destination holds exactly the source's bytes, and every other file is
/// as it was.
pub proof fn lemma_copy_overwrites(fs: FsModel, src: Seq<char>, dst: Seq<char>)
    ensures
        copy_file(fs, src, dst).files[dst] == fs.files[src],
        copy_file(fs, src, dst).files.dom() == fs.files.dom().insert(dst),
        forall|p: Seq<char>|
            p != dst && fs.files.dom().contains(p) ==> copy_file(fs, src, dst).files[p]
                == fs.files[p],
{
    assert(copy_file(fs, src, dst).files.dom() =~= fs.files.dom().insert(dst));
}

/// A sequence of copies adds exactly its destinations to the set of
/// files on disk.
pub proof fn lemma_apply_copies_file_set(fs: FsModel, pairs: Seq<(Seq<char>, Seq<char>)>)
    ensures
        apply_copies(fs, pairs).files.dom() == fs.files.dom().union(destinations(pairs)),
    decreases pairs.len(),
{
    if pairs.len() == 0 {
        assert(apply_copies(fs, pairs).files.dom() =~= fs.files.dom().union(destinations(pairs)));
    } else {
        lemma_apply_copies_file_set(fs, pairs.drop_last());
        let rest = pairs.drop_last();
        assert forall|p: Seq<char>| destinations(pairs).contains(p) implies destinations(
            rest,
        ).insert(pairs.last().1).contains(p) by {
            let i = choose|i: int| 0 <= i < pairs.len() && pairs[i].1 == p;
            if i < rest.len() {
                assert(rest[i] == pairs[i]);
                assert(destinations(rest).contains(p));
            } else {
                assert(pairs[i] == pairs.last());
            }
        }
        assert forall|p: Seq<char>|
            destinations(rest).insert(pairs.last().1).contains(p) implies destinations(
            pairs,
        ).contains(p) by {
            if destinations(rest).contains(p) {
                let i = choose|i: int| 0 <= i < rest.len() && rest[i].1 == p;
                assert(pairs[i].1 == p);
            } else {
                assert(pairs[pairs.len() - 1].1 == p);
            }
        }
        assert(destinations(pairs) =~= destinations(pairs.drop_last()).insert(pairs.last().1));
        assert(apply_copies(fs, pairs).files.dom() =~= fs.files.dom().union(destinations(pairs)));
    }
}

/// Copies never remove or create directories.
pub proof fn lemma_apply_copies_keeps_dirs(fs: FsModel, pairs: Seq<(Seq<char>, Seq<char>)>)
    ensures
        apply_copies(fs, pairs).dirs == fs.dirs,
    decreases pairs.len(),
{
    if pairs.len() > 0 {
        lemma_apply_copies_keeps_dirs(fs, pairs.drop_last());
    }
}

} // verus!
