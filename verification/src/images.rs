//! The image lister: the fixed allow-list of image extensions,
//! case-insensitive matching, and the filter that turns a directory's
//! entries into the full paths of its image files.
use vstd::prelude::*;
use crate::paths::{extension, extension_of, join, join_path};

verus! {

/// One entry of a directory listing, as the host hands it in:
/// the entry's bare name and whether it is a regular file.
pub struct DirEntry {
    pub name: String,
    pub is_file: bool,
}

/// ASCII upper-case letters fold to lower case; everything else stands.
pub open spec fn lower_char(c: char) -> char {
    if 'A' <= c && c <= 'Z' {
        ((c as u32) + 32) as char
    } else {
        c
    }
}

/// `s` folded to lower case, character by character.
pub open spec fn lower(s: Seq<char>) -> Seq<char> {
    s.map_values(|c: char| lower_char(c))
}

/// The recognized image extensions, already lower case.
pub open spec fn image_extensions() -> Seq<Seq<char>> {
    seq![
        seq!['j', 'p', 'g'],
        seq!['j', 'p', 'e', 'g'],
        seq!['p', 'n', 'g'],
        seq!['t', 'i', 'f'],
        seq!['t', 'i', 'f', 'f'],
    ]
}

/// Whether `ext`, folded to lower case, is a recognized image extension.
pub open spec fn is_image_ext(ext: Seq<char>) -> bool {
    image_extensions().contains(lower(ext))
}

/// Whether file name `name` carries a recognized image extension.
pub open spec fn is_image_name(name: Seq<char>) -> bool {
    match extension_of(name) {
        Some(e) => is_image_ext(e),
        None => false,
    }
}

/// `lower_char(c)`, computed.
fn lower_char_exec(c: char) -> (r: char)
    ensures
        r == lower_char(c),
{
    if 'A' <= c && c <= 'Z' {
        (((c as u32) + 32) as u8) as char
    } else {
        c
    }
}

/// Whether `s` folded to lower case equals `t` as it stands.
fn eq_folded(s: &str, t: &str) -> (b: bool)
    ensures
        b == (lower(s@) == t@),
{
    let n = s.unicode_len();
    let m = t.unicode_len();
    if n != m {
        proof {
            assert(lower(s@).len() == s@.len());
        }
        return false;
    }
    let mut k: usize = 0;
    while k < n
        invariant
            n == s@.len() == t@.len(),
            k <= n,
            forall|j: int| 0 <= j < k ==> lower(s@)[j] == t@[j],
        decreases n - k,
    {
        if lower_char_exec(s.get_char(k)) != t.get_char(k) {
            proof {
                assert(lower(s@)[k as int] != t@[k as int]);
            }
            return false;
        }
        k = k + 1;
    }
    proof {
        assert(lower(s@) =~= t@);
    }
    true
}

/// Whether `ext` matches one of the recognized image extensions,
/// case-insensitively.
pub fn matches_image_ext(ext: &str) -> (b: bool)
    ensures
        b == is_image_ext(ext@),
{
    proof {
        reveal_strlit("jpg");
        reveal_strlit("jpeg");
        reveal_strlit("png");
        reveal_strlit("tif");
        reveal_strlit("tiff");
        assert("jpg"@ =~= image_extensions()[0]);
        assert("jpeg"@ =~= image_extensions()[1]);
        assert("png"@ =~= image_extensions()[2]);
        assert("tif"@ =~= image_extensions()[3]);
        assert("tiff"@ =~= image_extensions()[4]);
    }
    let b = eq_folded(ext, "jpg") || eq_folded(ext, "jpeg") || eq_folded(ext, "png")
        || eq_folded(ext, "tif") || eq_folded(ext, "tiff");
    proof {
        if b {
            assert(image_extensions().contains(lower(ext@)));
        } else {
            assert(forall|i: int|
                0 <= i < image_extensions().len() ==> image_extensions()[i] != lower(ext@));
        }
    }
    b
}

/// Whether file name `name` carries a recognized image extension.
pub fn has_image_extension(name: &str) -> (b: bool)
    ensures
        b == is_image_name(name@),
{
    match extension(name) {
        Some(e) => matches_image_ext(e.as_str()),
        None => false,
    }
}

/// The full paths of the image files among `entries`, in the order the
/// entries come: for each entry that is a regular file whose name carries
/// a recognized image extension, the name joined onto `dir`.
pub open spec fn image_paths(dir: Seq<char>, entries: Seq<DirEntry>) -> Seq<Seq<char>>
    decreases entries.len(),
{
    if entries.len() == 0 {
        Seq::empty()
    } else {
        let rest = image_paths(dir, entries.drop_last());
        let e = entries.last();
        if e.is_file && is_image_name(e.name@) {
            rest.push(join(dir, e.name@))
        } else {
            rest
        }
    }
}

/// The lister's output is exactly the image files, whatever the order of
/// the listing: a path is among `image_paths(dir, entries)` precisely
/// when some entry is a regular file with a recognized image extension
/// and the path is that entry's name under `dir`.
pub proof fn lemma_image_paths_exactly(dir: Seq<char>, entries: Seq<DirEntry>)
    ensures
        forall|p: Seq<char>|
            image_paths(dir, entries).contains(p) <==> exists|i: int|
                0 <= i < entries.len() && entries[i].is_file && is_image_name(
                    #[trigger] entries[i].name@,
                ) && p == join(dir, entries[i].name@),
    decreases entries.len(),
{
    if entries.len() == 0 {
    } else {
        let rest = entries.drop_last();
        let e = entries.last();
        lemma_image_paths_exactly(dir, rest);
        assert forall|p: Seq<char>| image_paths(dir, entries).contains(p) implies exists|i: int|
            0 <= i < entries.len() && entries[i].is_file && is_image_name(
                #[trigger] entries[i].name@,
            ) && p == join(dir, entries[i].name@) by {
            let k = choose|k: int|
                0 <= k < image_paths(dir, entries).len() && image_paths(dir, entries)[k] == p;
            if k < image_paths(dir, rest).len() {
                assert(image_paths(dir, rest).contains(p));
                let i = choose|i: int|
                    0 <= i < rest.len() && rest[i].is_file && is_image_name(rest[i].name@) && p
                        == join(dir, rest[i].name@);
                assert(entries[i] == rest[i]);
            } else {
                assert(e.is_file && is_image_name(e.name@) && p == join(dir, e.name@));
                assert(entries[entries.len() - 1] == e);
            }
        }
        assert forall|p: Seq<char>|
            (exists|i: int|
                0 <= i < entries.len() && entries[i].is_file && is_image_name(
                    #[trigger] entries[i].name@,
                ) && p == join(dir, entries[i].name@)) implies image_paths(
            dir,
            entries,
        ).contains(p) by {
            let i = choose|i: int|
                0 <= i < entries.len() && entries[i].is_file && is_image_name(entries[i].name@)
                    && p == join(dir, entries[i].name@);
            if i < entries.len() - 1 {
                assert(rest[i] == entries[i]);
                assert(image_paths(dir, rest).contains(p));
                let k = choose|k: int|
                    0 <= k < image_paths(dir, rest).len() && image_paths(dir, rest)[k] == p;
                assert(image_paths(dir, entries)[k] == p);
            } else {
                assert(image_paths(dir, entries).last() == p);
                assert(image_paths(dir, entries)[image_paths(dir, entries).len() - 1] == p);
            }
        }
    }
}

/// Filters a directory listing down to its image files, each as a full
/// path under `dir`. Entries that are not regular files are skipped.
pub fn list_image_paths(dir: &str, entries: &Vec<DirEntry>) -> (r: Vec<String>)
    ensures
        r@.map_values(|s: String| s@) == image_paths(dir@, entries@),
{
    let mut r: Vec<String> = Vec::new();
    let mut k: usize = 0;
    while k < entries.len()
        invariant
            k <= entries@.len(),
            r@.map_values(|s: String| s@) == image_paths(dir@, entries@.subrange(0, k as int)),
        decreases entries@.len() - k,
    {
        let e = &entries[k];
        if e.is_file && has_image_extension(e.name.as_str()) {
            r.push(join_path(dir, e.name.as_str()));
        }
        proof {
            assert(entries@.subrange(0, k + 1 as int).drop_last() =~= entries@.subrange(
                0,
                k as int,
            ));
            assert(entries@.subrange(0, k + 1 as int).last() == entries@[k as int]);
        }
        k = k + 1;
    }
    proof {
        assert(entries@.subrange(0, entries@.len() as int) =~= entries@);
    }
    r
}

} // verus!
