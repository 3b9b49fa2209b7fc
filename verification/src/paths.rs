//! Path strings: joining a directory with a file name, finding a path's
//! parent directory, extracting a file name's extension, and the two
//! well-known directories under the per-user application-data root.
//!
//! Paths are plain strings with `/` as the separator; a path is modeled
//! as its sequence of characters.
use vstd::prelude::*;

verus! {

/// The character that separates path components.
pub open spec fn sep() -> char {
    '/'
}

/// The path of file `name` inside directory `dir`.
pub open spec fn join(dir: Seq<char>, name: Seq<char>) -> Seq<char> {
    dir + seq![sep()] + name
}

/// Appends `/` and `name` to `dir`.
pub fn join_path(dir: &str, name: &str) -> (r: String)
    ensures
        r@ == join(dir@, name@),
{
    let mut r = dir.to_owned();
    r.append("/");
    r.append(name);
    proof {
        reveal_strlit("/");
        assert(r@ =~= join(dir@, name@));
    }
    r
}

/// Whether position `i` holds the last separator of `p`.
pub open spec fn is_last_sep(p: Seq<char>, i: int) -> bool {
    &&& 0 <= i < p.len()
    &&& p[i] == sep()
    &&& forall|j: int| i < j < p.len() ==> p[j] != sep()
}

/// The parent directory of `p`: the prefix before the last separator,
/// or the root `/` alone when that separator is the first character.
/// A path without a separator has no parent.
pub open spec fn parent_of(p: Seq<char>) -> Option<Seq<char>> {
    if exists|i: int| is_last_sep(p, i) {
        let i = choose|i: int| is_last_sep(p, i);
        if i == 0 {
            Some(seq![sep()])
        } else {
            Some(p.subrange(0, i))
        }
    } else {
        None
    }
}

/// Position of the last occurrence of `c` in `s`, if any.
fn rfind_char(s: &str, c: char) -> (r: Option<usize>)
    ensures
        match r {
            Some(i) => i < s@.len() && s@[i as int] == c && (forall|j: int|
                i < j < s@.len() ==> s@[j] != c),
            None => forall|j: int| 0 <= j < s@.len() ==> s@[j] != c,
        },
{
    let n = s.unicode_len();
    let mut r: Option<usize> = None;
    let mut k: usize = 0;
    while k < n
        invariant
            n == s@.len(),
            k <= n,
            match r {
                Some(i) => i < k && s@[i as int] == c && (forall|j: int|
                    i < j < k ==> s@[j] != c),
                None => forall|j: int| 0 <= j < k ==> s@[j] != c,
            },
        decreases n - k,
    {
        if s.get_char(k) == c {
            r = Some(k);
        }
        k = k + 1;
    }
    r
}

/// The parent directory of `path`, as `parent_of` gives it.
pub fn parent_dir(path: &str) -> (r: Option<String>)
    ensures
        match r {
            Some(p) => parent_of(path@) == Some(p@),
            None => parent_of(path@) is None,
        },
{
    match rfind_char(path, '/') {
        Some(i) => {
            proof {
                assert(is_last_sep(path@, i as int));
                let w = choose|w: int| is_last_sep(path@, w);
                assert(path@[w] == sep());
                assert(w == i as int);
            }
            if i == 0 {
                let r = "/".to_owned();
                proof {
                    reveal_strlit("/");
                    assert(r@ =~= seq![sep()]);
                }
                Some(r)
            } else {
                Some(path.substring_char(0, i).to_owned())
            }
        },
        None => {
            proof {
                assert(forall|i: int| !is_last_sep(path@, i));
            }
            None
        },
    }
}

/// The extension of file name `name`: the part after the last `.`,
/// provided that dot is not the first character. A name without a dot,
/// or one whose only dot leads it, has no extension.
pub open spec fn is_last_dot(name: Seq<char>, i: int) -> bool {
    &&& 0 <= i < name.len()
    &&& name[i] == '.'
    &&& forall|j: int| i < j < name.len() ==> name[j] != '.'
}

/// See `is_last_dot`: `Some` exactly when a dot stands past the first
/// character, holding what follows the last dot.
pub open spec fn extension_of(name: Seq<char>) -> Option<Seq<char>> {
    if exists|i: int| is_last_dot(name, i) {
        let i = choose|i: int| is_last_dot(name, i);
        if i == 0 {
            None
        } else {
            Some(name.subrange(i + 1, name.len() as int))
        }
    } else {
        None
    }
}

/// The extension of `name`, as `extension_of` gives it.
pub fn extension(name: &str) -> (r: Option<String>)
    ensures
        match r {
            Some(e) => extension_of(name@) == Some(e@),
            None => extension_of(name@) is None,
        },
{
    match rfind_char(name, '.') {
        Some(i) => {
            proof {
                assert(is_last_dot(name@, i as int));
                let w = choose|w: int| is_last_dot(name@, w);
                assert(name@[w] == '.');
                assert(w == i as int);
            }
            if i == 0 {
                None
            } else {
                let n = name.unicode_len();
                Some(name.substring_char(i + 1, n).to_owned())
            }
        },
        None => {
            proof {
                assert(forall|i: int| !is_last_dot(name@, i));
            }
            None
        },
    }
}

/// A path has at most one last separator.
pub proof fn lemma_last_sep_unique(p: Seq<char>, i: int, j: int)
    requires
        is_last_sep(p, i),
        is_last_sep(p, j),
    ensures
        i == j,
{
    if i < j {
        assert(p[j] != sep());
    }
    if j < i {
        assert(p[i] != sep());
    }
}

/// Joins under different directories give different paths, as long as
/// the names hold no separator (as bare directory-entry names do not).
pub proof fn lemma_join_distinct_dirs(d1: Seq<char>, n1: Seq<char>, d2: Seq<char>, n2: Seq<char>)
    requires
        d1 != d2,
        !n1.contains(sep()),
        !n2.contains(sep()),
    ensures
        join(d1, n1) != join(d2, n2),
{
    if join(d1, n1) == join(d2, n2) {
        let s = join(d1, n1);
        assert(s[d1.len() as int] == sep());
        assert forall|j: int| d1.len() < j < s.len() implies s[j] != sep() by {
            assert(s[j] == n1[j - d1.len() - 1]);
            if n1[j - d1.len() - 1] == sep() {
                assert(n1.contains(sep()));
            }
        }
        assert(is_last_sep(s, d1.len() as int));
        assert(join(d2, n2)[d2.len() as int] == sep());
        assert forall|j: int| d2.len() < j < s.len() implies s[j] != sep() by {
            assert(s[j] == n2[j - d2.len() - 1]);
            if n2[j - d2.len() - 1] == sep() {
                assert(n2.contains(sep()));
            }
        }
        assert(is_last_sep(s, d2.len() as int));
        lemma_last_sep_unique(s, d1.len() as int, d2.len() as int);
        assert forall|k: int| 0 <= k < d1.len() implies d1[k] == d2[k] by {
            assert(join(d1, n1)[k] == d1[k]);
            assert(join(d2, n2)[k] == d2[k]);
        }
        assert(d1 =~= d2);
    }
}

/// Under one directory, different names give different paths.
pub proof fn lemma_join_injective_names(d: Seq<char>, n1: Seq<char>, n2: Seq<char>)
    requires
        join(d, n1) == join(d, n2),
    ensures
        n1 == n2,
{
    assert(join(d, n1).len() == d.len() + 1 + n1.len());
    assert(join(d, n2).len() == d.len() + 1 + n2.len());
    assert(n1.len() == n2.len());
    assert forall|k: int| 0 <= k < n1.len() implies n1[k] == n2[k] by {
        assert(join(d, n1)[d.len() + 1 + k] == n1[k]);
        assert(join(d, n2)[d.len() + 1 + k] == n2[k]);
    }
    assert(n1 =~= n2);
}

/// Name of the images folder under the application-data root.
pub open spec fn images_folder() -> Seq<char> {
    seq!['I', 'm', 'a', 'g', 'e', 's']
}

/// Name of the output folder under the application-data root.
pub open spec fn output_folder() -> Seq<char> {
    seq!['O', 'u', 't', 'p', 'u', 't']
}

/// The images directory: `Images` under the application-data root.
pub fn images_dir_path(app_data_root: &str) -> (r: String)
    ensures
        r@ == join(app_data_root@, images_folder()),
{
    let r = join_path(app_data_root, "Images");
    proof {
        reveal_strlit("Images");
        assert("Images"@ =~= images_folder());
    }
    r
}

/// The output directory: `Output` under the application-data root.
pub fn output_dir_path(app_data_root: &str) -> (r: String)
    ensures
        r@ == join(app_data_root@, output_folder()),
{
    let r = join_path(app_data_root, "Output");
    proof {
        reveal_strlit("Output");
        assert("Output"@ =~= output_folder());
    }
    r
}

} // verus!
