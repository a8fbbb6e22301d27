//! What installing a pack downloads: each sound file once, by basename.
use vstd::prelude::*;
use crate::text::same_text;
use crate::events::{texts, ManifestCategory, PackManifest};
use crate::paths::{basename, file_name};

verus! {

/// Whether `b` is the basename of some file listed in `files`.
pub open spec fn lists_basename(files: Seq<String>, b: Seq<char>) -> bool {
    exists|j: int| 0 <= j < files.len() && file_name(#[trigger] files[j]@) == Some(b)
}

/// Whether `b` is the basename of some file listed under some category.
pub open spec fn manifest_lists_basename(cats: Seq<ManifestCategory>, b: Seq<char>) -> bool {
    exists|i: int| 0 <= i < cats.len() && lists_basename(#[trigger] cats[i].files@, b)
}

/// Whether `v` holds a string equal to `s`.
fn holds_text(v: &Vec<String>, s: &str) -> (r: bool)
    ensures
        r == texts(v@).contains(s@),
{
    let mut i: usize = 0;
    while i < v.len()
        invariant
            i <= v@.len(),
            forall|m: int| 0 <= m < i ==> v@[m]@ != s@,
        decreases v@.len() - i,
    {
        if same_text(v[i].as_str(), s) {
            assert(texts(v@)[i as int] == s@);
            return true;
        }
        i = i + 1;
    }
    false
}

/// Adds to `out` each basename of `files` that it does not hold yet.
fn add_basenames(out: &mut Vec<String>, files: &Vec<String>)
    requires
        texts(old(out)@).no_duplicates(),
    ensures
        texts(final(out)@).no_duplicates(),
        forall|b: Seq<char>|
            #[trigger] texts(final(out)@).contains(b) <==> texts(old(out)@).contains(b)
                || lists_basename(files@, b),
{
    let ghost start = texts(out@);
    let mut k: usize = 0;
    while k < files.len()
        invariant
            k <= files@.len(),
            start == texts(old(out)@),
            texts(out@).no_duplicates(),
            forall|b: Seq<char>|
                #[trigger] texts(out@).contains(b) <==> start.contains(b) || exists|j: int|
                    0 <= j < k && file_name(#[trigger] files@[j]@) == Some(b),
        decreases files@.len() - k,
    {
        let ghost before = texts(out@);
        let ghost fk = files@[k as int]@;
        match basename(files[k].as_str()) {
            Some(b) => {
                if !holds_text(out, b.as_str()) {
                    proof {
                        assert(texts(out@.push(b)) =~= before.push(b@));
                    }
                    out.push(b);
                    assert(forall|m: int| 0 <= m < before.len() ==> texts(out@)[m] == before[m]);
                    assert(texts(out@)[before.len() as int] == b@);
                    assert forall|x: Seq<char>| #[trigger] texts(out@).contains(x) <==> before.contains(x) || x == b@ by {
                        if texts(out@).contains(x) {
                            let m = choose|m: int| 0 <= m < texts(out@).len() && texts(out@)[m] == x;
                            if m < before.len() {
                                assert(before[m] == x);
                            }
                        }
                        if before.contains(x) {
                            let m = choose|m: int| 0 <= m < before.len() && before[m] == x;
                            assert(texts(out@)[m] == x);
                        }
                    }
                }
                assert(file_name(fk) == Some(b@));
            },
            None => {
                assert(file_name(fk).is_none());
            },
        }
        assert forall|x: Seq<char>|
            #[trigger] texts(out@).contains(x) <==> start.contains(x) || exists|j: int|
                0 <= j < k + 1 && file_name(#[trigger] files@[j]@) == Some(x) by {
            if exists|j: int| 0 <= j < k + 1 && file_name(#[trigger] files@[j]@) == Some(x) {
                let j = choose|j: int| 0 <= j < k + 1 && file_name(#[trigger] files@[j]@) == Some(x);
                if j < k {
                    assert(exists|j: int| 0 <= j < k && file_name(#[trigger] files@[j]@) == Some(x));
                }
            }
        }
        k = k + 1;
    }
}

/// The basenames of all files that a manifest lists, each once.
pub fn sound_files(manifest: &PackManifest) -> (r: Vec<String>)
    ensures
        texts(r@).no_duplicates(),
        forall|b: Seq<char>|
            #[trigger] texts(r@).contains(b) <==> manifest_lists_basename(manifest.categories@, b),
{
    let cats = &manifest.categories;
    let mut out: Vec<String> = Vec::new();
    let mut i: usize = 0;
    assert(texts(out@) =~= Seq::<Seq<char>>::empty());
    while i < cats.len()
        invariant
            i <= cats@.len(),
            cats == &manifest.categories,
            texts(out@).no_duplicates(),
            forall|b: Seq<char>|
                #[trigger] texts(out@).contains(b) <==> exists|m: int|
                    0 <= m < i && lists_basename(#[trigger] cats@[m].files@, b),
        decreases cats@.len() - i,
    {
        add_basenames(&mut out, &cats[i].files);
        i = i + 1;
    }
    out
}

} // verus!
