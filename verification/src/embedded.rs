use std::marker::PhantomData;

use itertools::Itertools;

use crate::asteroids::lemma_remove_duplicates_no_duplicates;
use crate::paths::{law_plain_form_is_same_path, normalise_path, path_text, same_path};
use vstd::prelude::*;
use vstd::string::*;
use vstd::utf8::encode_utf8;

verus! {

/// Plugin serving assets embedded in the binary (the type `T` lists them),
/// falling back to the platform's asset files.
pub struct EmbeddedAssetPlugin<T>(PhantomData<T>);

/// The plugin for the asset list `T`: it carries no data besides that
/// type, so this is its one value.
pub closed spec fn the_plugin<T>() -> EmbeddedAssetPlugin<T> {
    EmbeddedAssetPlugin(PhantomData)
}

impl<T> EmbeddedAssetPlugin<T> {
    /// The plugin; it carries no data besides the type of its asset list.
    pub fn new() -> (p: Self)
        ensures
            p == the_plugin::<T>(),
    {
        EmbeddedAssetPlugin(PhantomData)
    }
}

impl<T> Default for EmbeddedAssetPlugin<T> {
    /// The same plugin as `new` gives.
    fn default() -> (p: Self)
        ensures
            p == the_plugin::<T>(),
    {
        Self::new()
    }
}

/// Whether `name` starts with the bytes of `dir`.
pub open spec fn in_directory(name: Seq<u8>, dir: Seq<u8>) -> bool {
    dir.is_prefix_of(name)
}

fn starts_with(name: &str, dir: &str) -> (b: bool)
    ensures
        b == in_directory(name.spec_bytes(), dir.spec_bytes()),
{
    let nb = name.as_bytes();
    let db = dir.as_bytes();
    if db.len() > nb.len() {
        return false;
    }
    let mut i: usize = 0;
    while i < db.len()
        invariant
            i <= db.len(),
            db.len() <= nb.len(),
            nb@ == name.spec_bytes(),
            db@ == dir.spec_bytes(),
            forall|k: int| 0 <= k < i ==> nb@[k] == db@[k],
        decreases db.len() - i,
    {
        if nb[i] != db[i] {
            return false;
        }
        i = i + 1;
    }
    proof {
        assert(db@ =~= nb@.subrange(0, db@.len() as int));
    }
    true
}

/// The embedded file names that lie under the directory `dir`, in order.
pub open spec fn embedded_in_directory_spec(names: Seq<String>, dir: Seq<u8>) -> Seq<String> {
    names.filter(|n: String| in_directory(encode_utf8(n@), dir))
}

/// The embedded files listed for a directory: those whose name starts with
/// the directory's path. The asset loader adds the files found on disk.
pub fn embedded_in_directory(names: &Vec<String>, dir: &str) -> (r: Vec<String>)
    ensures
        r@ == embedded_in_directory_spec(names@, dir.spec_bytes()),
{
    let ghost pred = |n: String| in_directory(encode_utf8(n@), dir.spec_bytes());
    let mut r: Vec<String> = Vec::new();
    let mut i: usize = 0;
    while i < names.len()
        invariant
            i <= names.len(),
            pred == (|n: String| in_directory(encode_utf8(n@), dir.spec_bytes())),
            r@ == names@.take(i as int).filter(pred),
        decreases names.len() - i,
    {
        let name = names[i].clone();
        proof {
            assert(names@.take(i as int + 1) =~= names@.take(i as int).push(names@[i as int]));
            names@.take(i as int).lemma_filter_push(names@[i as int], pred);
        }
        if starts_with(name.as_str(), dir) {
            r.push(name);
        }
        i = i + 1;
    }
    proof {
        assert(names@.take(i as int) =~= names@);
    }
    r
}

/// The texts of a list of paths.
pub open spec fn path_texts(paths: Seq<String>) -> Seq<Seq<char>> {
    paths.map_values(|p: String| p@)
}

/// Keeps the first occurrence of every text and drops later repeats of the
/// same text, in order, through `itertools::Itertools::unique` (documented
/// as stable, keeping the first item of a set of duplicates; `String`
/// compares and hashes by its text).
#[verifier::external_body]
fn unique_texts(texts: Vec<String>) -> (r: Vec<String>)
    ensures
        path_texts(r@) == path_texts(texts@).remove_duplicates(Seq::empty()),
{
    texts.into_iter().unique().collect()
}

/// The plain written forms of the paths.
pub open spec fn plain_forms(paths: Seq<Seq<char>>) -> Seq<Seq<char>> {
    paths.map_values(|p: Seq<char>| path_text(p))
}

/// The paths listed for the directory `dir`: the embedded files under it,
/// then the files found on disk there (`disk`), as `listed`.
pub open spec fn listed_paths(embedded: Seq<String>, dir: Seq<u8>, disk: Seq<String>) -> Seq<Seq<char>> {
    path_texts(embedded_in_directory_spec(embedded, dir) + disk)
}

/// The paths of the directory `dir`: the embedded files under it, then the
/// files found on disk there (`disk`), each path once: a path met again,
/// even written otherwise (`a//b` after `a/b`), is dropped. Each path is
/// given in its plain form (`path_text`), in the order first met.
pub fn directory_listing(embedded: &Vec<String>, dir: &str, disk: Vec<String>) -> (r: Vec<String>)
    ensures
        path_texts(r@) == plain_forms(listed_paths(embedded@, dir.spec_bytes(), disk@)).remove_duplicates(Seq::empty()),
        forall|i: int, j: int| 0 <= i < j < r@.len() ==> !same_path(#[trigger] r@[i]@, #[trigger] r@[j]@),
        forall|p: Seq<char>| #[trigger] listed_paths(embedded@, dir.spec_bytes(), disk@).contains(p) ==> exists|i: int|
            0 <= i < r@.len() && same_path(#[trigger] r@[i]@, p),
        forall|i: int| 0 <= i < r@.len() ==> names_a_listed_path(listed_paths(embedded@, dir.spec_bytes(), disk@), #[trigger] r@[i]@),
{
    let ghost listed_spec = listed_paths(embedded@, dir.spec_bytes(), disk@);
    let mut listed = embedded_in_directory(embedded, dir);
    let mut disk = disk;
    listed.append(&mut disk);
    proof {
        assert(path_texts(listed@) =~= listed_spec);
    }
    let mut plain: Vec<String> = Vec::new();
    let mut i: usize = 0;
    while i < listed.len()
        invariant
            i <= listed.len(),
            path_texts(listed@) == listed_spec,
            plain.len() == i,
            path_texts(plain@) =~= plain_forms(listed_spec.take(i as int)),
        decreases listed.len() - i,
    {
        let t = normalise_path(listed[i].as_str());
        let ghost prev = plain@;
        plain.push(t);
        proof {
            assert(listed_spec[i as int] == listed@[i as int]@);
            let want = plain_forms(listed_spec.take(i + 1));
            assert forall|k: int| 0 <= k < i + 1 implies path_texts(plain@)[k] == want[k] by {
                if k < i {
                    assert(plain@[k] == prev[k]);
                    assert(path_texts(prev)[k] == plain_forms(listed_spec.take(i as int))[k]);
                    assert(listed_spec.take(i as int)[k] == listed_spec.take(i + 1)[k]);
                } else {
                    assert(plain@[k] == t);
                    assert(listed_spec.take(i + 1)[k] == listed_spec[i as int]);
                }
            }
            assert(path_texts(plain@) =~= want);
        }
        i = i + 1;
    }
    proof {
        assert(listed_spec.take(i as int) =~= listed_spec);
    }
    let r = unique_texts(plain);
    proof {
        lemma_listing_paths(listed_spec, path_texts(r@));
        assert forall|i: int, j: int| 0 <= i < j < r@.len() implies !same_path(#[trigger] r@[i]@, #[trigger] r@[j]@) by {
            assert(path_texts(r@)[i] == r@[i]@);
            assert(path_texts(r@)[j] == r@[j]@);
        }
        assert forall|p: Seq<char>| #[trigger] listed_spec.contains(p) implies exists|i: int|
            0 <= i < r@.len() && same_path(#[trigger] r@[i]@, p) by {
            let i = choose|i: int| 0 <= i < path_texts(r@).len() && same_path(path_texts(r@)[i], p);
            assert(path_texts(r@)[i] == r@[i]@);
        }
        assert forall|i: int| 0 <= i < r@.len() implies names_a_listed_path(listed_spec, #[trigger] r@[i]@) by {
            assert(path_texts(r@)[i] == r@[i]@);
        }
    }
    r
}

/// `t` names the same path as one of `listed`.
pub open spec fn names_a_listed_path(listed: Seq<Seq<char>>, t: Seq<char>) -> bool {
    exists|p: Seq<char>| #[trigger] listed.contains(p) && same_path(t, p)
}

/// The listing of `listed` in plain forms names every listed path, names
/// only listed paths, and names no path twice.
proof fn lemma_listing_paths(listed: Seq<Seq<char>>, result: Seq<Seq<char>>)
    requires
        result == plain_forms(listed).remove_duplicates(Seq::empty()),
    ensures
        forall|i: int, j: int| 0 <= i < j < result.len() ==> !same_path(#[trigger] result[i], #[trigger] result[j]),
        forall|p: Seq<char>| #[trigger] listed.contains(p) ==> exists|i: int| 0 <= i < result.len() && same_path(result[i], p),
        forall|i: int| 0 <= i < result.len() ==> names_a_listed_path(listed, #[trigger] result[i]),
{
    let plain = plain_forms(listed);
    plain.lemma_remove_duplicates_properties(Seq::empty());
    lemma_remove_duplicates_no_duplicates(plain, Seq::empty());
    assert(plain + Seq::<Seq<char>>::empty() =~= plain);
    assert forall|i: int| 0 <= i < result.len() implies names_a_listed_path(listed, #[trigger] result[i]) by {
        assert(result.contains(result[i]));
        assert(plain.contains(result[i]));
        let k = choose|k: int| 0 <= k < plain.len() && plain[k] == result[i];
        law_plain_form_is_same_path(listed[k], listed[k]);
        assert(plain[k] == path_text(listed[k]));
        assert(listed.contains(listed[k]) && same_path(result[i], listed[k]));
    }
    assert forall|i: int, j: int| 0 <= i < j < result.len() implies !same_path(#[trigger] result[i], #[trigger] result[j]) by {
        assert(result.contains(result[i]));
        assert(result.contains(result[j]));
        let a = choose|k: int| 0 <= k < plain.len() && plain[k] == result[i];
        let b = choose|k: int| 0 <= k < plain.len() && plain[k] == result[j];
        assert(plain[a] == path_text(listed[a]));
        assert(plain[b] == path_text(listed[b]));
        law_plain_form_is_same_path(listed[a], listed[a]);
        law_plain_form_is_same_path(listed[b], listed[b]);
        law_plain_form_is_same_path(result[i], result[j]);
        law_plain_form_is_same_path(result[i], listed[a]);
        law_plain_form_is_same_path(result[j], listed[b]);
    }
    assert forall|p: Seq<char>| #[trigger] listed.contains(p) implies exists|i: int| 0 <= i < result.len() && same_path(result[i], p) by {
        let k = choose|k: int| 0 <= k < listed.len() && listed[k] == p;
        assert(plain[k] == path_text(p));
        assert(plain.contains(path_text(p)));
        assert(result.contains(path_text(p)));
        let i = choose|i: int| 0 <= i < result.len() && result[i] == path_text(p);
        law_plain_form_is_same_path(p, p);
    }
}

} // verus!
