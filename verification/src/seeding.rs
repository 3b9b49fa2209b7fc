//! The resource seeder's plan: which copies fill the images directory
//! from the bundled resource directory. Every regular file in the
//! resource directory is copied into the target directory under its own
//! name, overwriting a same-named file; entries that are not regular
//! files are skipped, without recursing. The host performs the copies.
use vstd::prelude::*;
use crate::fsmodel::{
    FsModel,
    apply_copies,
    copy_file,
    destinations,
    lemma_apply_copies_file_set,
    lemma_apply_copies_keeps_dirs,
};
use crate::images::DirEntry;
use crate::paths::{join, join_path, lemma_join_distinct_dirs, lemma_join_injective_names, sep};

verus! {

/// One planned copy: read `source`, write `destination`.
pub struct CopyPair {
    pub source: String,
    pub destination: String,
}

/// The copies that seeding performs, in the order the entries come: for
/// each entry that is a regular file, from its path under the resource
/// directory to its path under the target directory.
pub open spec fn seed_pairs(
    resource_dir: Seq<char>,
    target_dir: Seq<char>,
    entries: Seq<DirEntry>,
) -> Seq<(Seq<char>, Seq<char>)>
    decreases entries.len(),
{
    if entries.len() == 0 {
        Seq::empty()
    } else {
        let rest = seed_pairs(resource_dir, target_dir, entries.drop_last());
        let e = entries.last();
        if e.is_file {
            rest.push((join(resource_dir, e.name@), join(target_dir, e.name@)))
        } else {
            rest
        }
    }
}

/// The file-system state after seeding: every planned copy applied.
pub open spec fn seeded(
    fs: FsModel,
    resource_dir: Seq<char>,
    target_dir: Seq<char>,
    entries: Seq<DirEntry>,
) -> FsModel {
    apply_copies(fs, seed_pairs(resource_dir, target_dir, entries))
}

/// Plans the seeding of `target_dir` from `resource_dir`, given the
/// resource directory's entries: one copy per regular file, as
/// `seed_pairs` gives them.
pub fn seed_plan(resource_dir: &str, target_dir: &str, entries: &Vec<DirEntry>) -> (r: Vec<
    CopyPair,
>)
    ensures
        r@.map_values(|p: CopyPair| (p.source@, p.destination@)) == seed_pairs(
            resource_dir@,
            target_dir@,
            entries@,
        ),
{
    let mut r: Vec<CopyPair> = Vec::new();
    let mut k: usize = 0;
    while k < entries.len()
        invariant
            k <= entries@.len(),
            r@.map_values(|p: CopyPair| (p.source@, p.destination@)) == seed_pairs(
                resource_dir@,
                target_dir@,
                entries@.subrange(0, k as int),
            ),
        decreases entries@.len() - k,
    {
        let e = &entries[k];
        if e.is_file {
            r.push(
                CopyPair {
                    source: join_path(resource_dir, e.name.as_str()),
                    destination: join_path(target_dir, e.name.as_str()),
                },
            );
        }
        proof {
            assert(entries@.subrange(0, k + 1 as int).drop_last() =~= entries@.subrange(
                0,
                k as int,
            ));
            assert(entries@.subrange(0, k + 1 as int).last() == entries@[k as int]);
        }
        k = k + 1;
    }
    proof {
        assert(entries@.subrange(0, entries@.len() as int) =~= entries@);
    }
    r
}

/// The file paths seeding writes: each regular-file entry's name under
/// the target directory.
pub open spec fn seeded_names(target_dir: Seq<char>, entries: Seq<DirEntry>) -> Set<Seq<char>> {
    Set::new(
        |p: Seq<char>|
            exists|i: int|
                0 <= i < entries.len() && entries[i].is_file && p == join(
                    target_dir,
                    entries[i].name@,
                ),
    )
}

/// The planned copies write to exactly the regular-file entries' names
/// under the target directory.
pub proof fn lemma_seed_destinations(
    resource_dir: Seq<char>,
    target_dir: Seq<char>,
    entries: Seq<DirEntry>,
)
    ensures
        destinations(seed_pairs(resource_dir, target_dir, entries)) == seeded_names(
            target_dir,
            entries,
        ),
    decreases entries.len(),
{
    let pairs = seed_pairs(resource_dir, target_dir, entries);
    if entries.len() == 0 {
        assert(destinations(pairs) =~= seeded_names(target_dir, entries));
    } else {
        lemma_seed_destinations(resource_dir, target_dir, entries.drop_last());
        let rest = seed_pairs(resource_dir, target_dir, entries.drop_last());
        assert forall|p: Seq<char>| destinations(pairs).contains(p) implies seeded_names(
            target_dir,
            entries,
        ).contains(p) by {
            let i = choose|i: int| 0 <= i < pairs.len() && pairs[i].1 == p;
            if i < rest.len() {
                assert(destinations(rest).contains(p));
                let j = choose|j: int|
                    0 <= j < entries.drop_last().len() && entries.drop_last()[j].is_file && p
                        == join(target_dir, entries.drop_last()[j].name@);
                assert(entries[j] == entries.drop_last()[j]);
            } else {
                assert(entries.last().is_file && p == join(target_dir, entries.last().name@));
                assert(entries[entries.len() - 1] == entries.last());
            }
        }
        assert forall|p: Seq<char>| seeded_names(target_dir, entries).contains(p) implies
            destinations(pairs).contains(p) by {
            let i = choose|i: int|
                0 <= i < entries.len() && entries[i].is_file && p == join(
                    target_dir,
                    entries[i].name@,
                );
            if i < entries.len() - 1 {
                assert(entries.drop_last()[i] == entries[i]);
                assert(seeded_names(target_dir, entries.drop_last()).contains(p));
                assert(destinations(rest).contains(p));
                let j = choose|j: int| 0 <= j < rest.len() && rest[j].1 == p;
                assert(pairs[j].1 == p);
            } else {
                assert(entries.last().is_file);
                assert(pairs.last().1 == p);
                assert(pairs[pairs.len() - 1].1 == p);
            }
        }
        assert(destinations(pairs) =~= seeded_names(target_dir, entries));
    }
}

/// Seeding adds exactly the regular-file entries' names under the target
/// directory to the set of files on disk; in particular, seeding into an
/// empty file system leaves exactly those files.
pub proof fn lemma_seed_file_set(
    fs: FsModel,
    resource_dir: Seq<char>,
    target_dir: Seq<char>,
    entries: Seq<DirEntry>,
)
    ensures
        seeded(fs, resource_dir, target_dir, entries).files.dom() == fs.files.dom().union(
            seeded_names(target_dir, entries),
        ),
{
    lemma_apply_copies_file_set(fs, seed_pairs(resource_dir, target_dir, entries));
    lemma_seed_destinations(resource_dir, target_dir, entries);
}

/// Seeding twice from the same resource directory leaves the set of
/// files on disk where one seeding put it.
pub proof fn lemma_seed_twice_file_set(
    fs: FsModel,
    resource_dir: Seq<char>,
    target_dir: Seq<char>,
    entries: Seq<DirEntry>,
)
    ensures
        seeded(seeded(fs, resource_dir, target_dir, entries), resource_dir, target_dir, entries)
            .files.dom() == seeded(fs, resource_dir, target_dir, entries).files.dom(),
{
    let once = seeded(fs, resource_dir, target_dir, entries);
    lemma_seed_file_set(fs, resource_dir, target_dir, entries);
    lemma_seed_file_set(once, resource_dir, target_dir, entries);
    assert(once.files.dom().union(seeded_names(target_dir, entries)) =~= fs.files.dom().union(
        seeded_names(target_dir, entries),
    ).union(seeded_names(target_dir, entries)));
    assert(fs.files.dom().union(seeded_names(target_dir, entries)).union(
        seeded_names(target_dir, entries),
    ) =~= fs.files.dom().union(seeded_names(target_dir, entries)));
}

/// The preconditions under which seeding is more than a plan: the two
/// directories differ, entry names are bare (no separator) and distinct,
/// and every regular-file entry's resource file exists.
pub open spec fn seedable(
    fs: FsModel,
    resource_dir: Seq<char>,
    target_dir: Seq<char>,
    entries: Seq<DirEntry>,
) -> bool {
    &&& resource_dir != target_dir
    &&& forall|i: int| 0 <= i < entries.len() ==> !(#[trigger] entries[i].name@).contains(sep())
    &&& forall|i: int, j: int|
        0 <= i < j < entries.len() ==> entries[i].name@ != entries[j].name@
    &&& forall|i: int|
        0 <= i < entries.len() && entries[i].is_file ==> fs.files.dom().contains(
            join(resource_dir, #[trigger] entries[i].name@),
        )
}

/// Seeding copies the bytes: afterwards each regular-file entry's target
/// file holds exactly its resource file's bytes, and every path seeding
/// does not write to — the resource files among them — is as it was.
pub proof fn lemma_seed_contents(
    fs: FsModel,
    resource_dir: Seq<char>,
    target_dir: Seq<char>,
    entries: Seq<DirEntry>,
)
    requires
        seedable(fs, resource_dir, target_dir, entries),
    ensures
        forall|i: int|
            0 <= i < entries.len() && entries[i].is_file ==> seeded(
                fs,
                resource_dir,
                target_dir,
                entries,
            ).files[join(target_dir, #[trigger] entries[i].name@)] == fs.files[join(
                resource_dir,
                entries[i].name@,
            )],
        forall|p: Seq<char>|
            !seeded_names(target_dir, entries).contains(p) ==> seeded(
                fs,
                resource_dir,
                target_dir,
                entries,
            ).files.dom().contains(p) == fs.files.dom().contains(p),
        forall|p: Seq<char>|
            !seeded_names(target_dir, entries).contains(p) && fs.files.dom().contains(p)
                ==> seeded(fs, resource_dir, target_dir, entries).files[p] == fs.files[p],
    decreases entries.len(),
{
    if entries.len() == 0 {
        assert(seed_pairs(resource_dir, target_dir, entries) =~= Seq::empty());
    } else {
        let rest = entries.drop_last();
        let e = entries.last();
        assert forall|i: int| 0 <= i < rest.len() implies rest[i] == entries[i] by {}
        lemma_seed_contents(fs, resource_dir, target_dir, rest);
        assert forall|p: Seq<char>|
            seeded_names(target_dir, rest).contains(p) implies seeded_names(
            target_dir,
            entries,
        ).contains(p) by {
            let i = choose|i: int|
                0 <= i < rest.len() && rest[i].is_file && p == join(target_dir, rest[i].name@);
            assert(entries[i].is_file && p == join(target_dir, entries[i].name@));
        }
        if e.is_file {
            let src = join(resource_dir, e.name@);
            let dst = join(target_dir, e.name@);
            let rest_pairs = seed_pairs(resource_dir, target_dir, rest);
            assert(seed_pairs(resource_dir, target_dir, entries) == rest_pairs.push((src, dst)));
            assert(rest_pairs.push((src, dst)).drop_last() =~= rest_pairs);
            assert(seeded(fs, resource_dir, target_dir, entries) == copy_file(
                seeded(fs, resource_dir, target_dir, rest),
                src,
                dst,
            ));
            let before = seeded(fs, resource_dir, target_dir, rest);
            // The source is no seeding destination, so it still holds its
            // original bytes.
            assert(!seeded_names(target_dir, rest).contains(src)) by {
                if seeded_names(target_dir, rest).contains(src) {
                    let i = choose|i: int|
                        0 <= i < rest.len() && rest[i].is_file && src == join(
                            target_dir,
                            rest[i].name@,
                        );
                    lemma_join_distinct_dirs(resource_dir, e.name@, target_dir, rest[i].name@);
                }
            }
            assert(entries[entries.len() - 1] == e);
            assert(fs.files.dom().contains(src));
            assert(before.files[src] == fs.files[src]);
            assert(seeded(fs, resource_dir, target_dir, entries).files == before.files.insert(
                dst,
                before.files[src],
            ));
            // Earlier entries' target files are untouched by the last copy:
            // distinct names give distinct paths under the target directory.
            assert forall|i: int|
                0 <= i < entries.len() && entries[i].is_file implies seeded(
                fs,
                resource_dir,
                target_dir,
                entries,
            ).files[join(target_dir, #[trigger] entries[i].name@)] == fs.files[join(
                resource_dir,
                entries[i].name@,
            )] by {
                if i < entries.len() - 1 {
                    let t_i = join(target_dir, entries[i].name@);
                    assert(entries[i].name@ != e.name@);
                    if t_i == dst {
                        lemma_join_injective_names(target_dir, entries[i].name@, e.name@);
                    }
                    assert(before.files[t_i] == fs.files[join(resource_dir, entries[i].name@)]);
                }
            }
            assert forall|p: Seq<char>|
                !seeded_names(target_dir, entries).contains(p) implies seeded(
                fs,
                resource_dir,
                target_dir,
                entries,
            ).files.dom().contains(p) == fs.files.dom().contains(p) && (fs.files.dom().contains(p)
                ==> seeded(fs, resource_dir, target_dir, entries).files[p] == fs.files[p]) by {
                assert(entries[entries.len() - 1].is_file && dst == join(
                    target_dir,
                    entries[entries.len() - 1].name@,
                ));
                assert(seeded_names(target_dir, entries).contains(dst));
                assert(p != dst);
                assert(!seeded_names(target_dir, rest).contains(p));
            }
        } else {
            assert(seed_pairs(resource_dir, target_dir, entries) == seed_pairs(
                resource_dir,
                target_dir,
                rest,
            ));
            assert forall|i: int|
                0 <= i < entries.len() && entries[i].is_file implies seeded(
                fs,
                resource_dir,
                target_dir,
                entries,
            ).files[join(target_dir, #[trigger] entries[i].name@)] == fs.files[join(
                resource_dir,
                entries[i].name@,
            )] by {
                assert(i < entries.len() - 1);
                assert(rest[i] == entries[i]);
            }
            assert forall|p: Seq<char>|
                !seeded_names(target_dir, entries).contains(p) implies !seeded_names(
                target_dir,
                rest,
            ).contains(p) by {}
        }
    }
}

/// Seeding twice from the same resource directory is the same as seeding
/// once: the second pass overwrites every seeded file with the same
/// bytes and touches nothing else.
pub proof fn lemma_seed_idempotent(
    fs: FsModel,
    resource_dir: Seq<char>,
    target_dir: Seq<char>,
    entries: Seq<DirEntry>,
)
    requires
        seedable(fs, resource_dir, target_dir, entries),
    ensures
        seeded(
            seeded(fs, resource_dir, target_dir, entries),
            resource_dir,
            target_dir,
            entries,
        ) == seeded(fs, resource_dir, target_dir, entries),
{
    let once = seeded(fs, resource_dir, target_dir, entries);
    let twice = seeded(once, resource_dir, target_dir, entries);
    lemma_seed_contents(fs, resource_dir, target_dir, entries);
    // The resource files are no seeding destinations, so the second pass
    // reads them unchanged.
    assert forall|i: int|
        0 <= i < entries.len() && entries[i].is_file implies once.files.dom().contains(
        join(resource_dir, #[trigger] entries[i].name@),
    ) && once.files[join(resource_dir, entries[i].name@)] == fs.files[join(
        resource_dir,
        entries[i].name@,
    )] by {
        let src = join(resource_dir, entries[i].name@);
        if seeded_names(target_dir, entries).contains(src) {
            let j = choose|j: int|
                0 <= j < entries.len() && entries[j].is_file && src == join(
                    target_dir,
                    entries[j].name@,
                );
            lemma_join_distinct_dirs(resource_dir, entries[i].name@, target_dir, entries[j].name@);
        }
    }
    assert(seedable(once, resource_dir, target_dir, entries));
    lemma_seed_contents(once, resource_dir, target_dir, entries);
    lemma_seed_file_set(fs, resource_dir, target_dir, entries);
    lemma_seed_file_set(once, resource_dir, target_dir, entries);
    assert(twice.files.dom() =~= once.files.dom());
    assert forall|p: Seq<char>| once.files.dom().contains(p) implies twice.files[p]
        == once.files[p] by {
        if seeded_names(target_dir, entries).contains(p) {
            let i = choose|i: int|
                0 <= i < entries.len() && entries[i].is_file && p == join(
                    target_dir,
                    entries[i].name@,
                );
            assert(twice.files[p] == once.files[join(resource_dir, entries[i].name@)]);
            assert(once.files[p] == fs.files[join(resource_dir, entries[i].name@)]);
        }
    }
    assert(twice.files =~= once.files);
    lemma_apply_copies_keeps_dirs(fs, seed_pairs(resource_dir, target_dir, entries));
    lemma_apply_copies_keeps_dirs(once, seed_pairs(resource_dir, target_dir, entries));
    assert(twice =~= once);
}

} // verus!
