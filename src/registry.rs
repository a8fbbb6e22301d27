//! Registry index entries, pack lookup and the content locations of a pack.
use vstd::prelude::*;
use crate::error::HookError;
use crate::paths::{trim_end_slashes, trim_start_slashes, trim_slashes};

verus! {

/// One pack of the registry index and where its content is hosted.
#[derive(Debug)]
pub struct RegistryPack {
    pub name: String,
    pub display_name: String,
    pub source_repo: String,
    pub source_ref: String,
    pub source_path: String,
}

/// Whether `i` is the first position of the index whose pack is named `name`.
pub open spec fn is_first_named(packs: Seq<RegistryPack>, name: Seq<char>, i: int) -> bool {
    &&& 0 <= i < packs.len()
    &&& packs[i].name@ == name
    &&& forall|j: int| 0 <= j < i ==> packs[j].name@ != name
}

/// Whether the index holds a pack named `name`.
pub open spec fn has_pack(packs: Seq<RegistryPack>, name: Seq<char>) -> bool {
    exists|i: int| 0 <= i < packs.len() && #[trigger] packs[i].name@ == name
}

/// The position of the first pack named `name`; the match is exact and
/// case-sensitive.
pub fn resolve_pack(packs: &Vec<RegistryPack>, name: &str) -> (r: Result<usize, HookError>)
    ensures
        r is Ok <==> has_pack(packs@, name@),
        r is Ok ==> is_first_named(packs@, name@, r->Ok_0 as int),
        r is Err ==> (r->Err_0 matches HookError::NotFound(n) && n@ == name@),
{
    let mut i: usize = 0;
    while i < packs.len()
        invariant
            i <= packs@.len(),
            forall|j: int| 0 <= j < i ==> packs@[j].name@ != name@,
        decreases packs@.len() - i,
    {
        if crate::text::same_text(packs[i].name.as_str(), name) {
            return Ok(i);
        }
        i = i + 1;
    }
    Err(HookError::NotFound(String::from_str(name)))
}

/// Resolves every name before anything is fetched: either every name is in the
/// index and the result gives, in order, the position of each, or the first
/// name that is missing is reported.
pub fn resolve_packs(packs: &Vec<RegistryPack>, names: &Vec<String>) -> (r: Result<
    Vec<usize>,
    HookError,
>)
    ensures
        r is Ok <==> forall|k: int| 0 <= k < names@.len() ==> has_pack(packs@, #[trigger] names@[k]@),
        r is Ok ==> r->Ok_0@.len() == names@.len() && forall|k: int|
            0 <= k < names@.len() ==> is_first_named(packs@, names@[k]@, #[trigger] r->Ok_0@[k] as int),
        r is Err ==> exists|k: int|
            0 <= k < names@.len() && !has_pack(packs@, #[trigger] names@[k]@) && (forall|m: int|
                0 <= m < k ==> has_pack(packs@, #[trigger] names@[m]@)) && (r->Err_0 matches HookError::NotFound(n)
                && n@ == names@[k]@),
{
    let mut out: Vec<usize> = Vec::new();
    let mut k: usize = 0;
    while k < names.len()
        invariant
            k <= names@.len(),
            out@.len() == k,
            forall|m: int| 0 <= m < k ==> has_pack(packs@, #[trigger] names@[m]@),
            forall|m: int| 0 <= m < k ==> is_first_named(packs@, names@[m]@, #[trigger] out@[m] as int),
        decreases names@.len() - k,
    {
        match resolve_pack(packs, names[k].as_str()) {
            Ok(i) => out.push(i),
            Err(e) => {
                return Err(e);
            },
        }
        k = k + 1;
    }
    Ok(out)
}

/// Raw-content location of a pack: host, repository and ref, then the pack's
/// subpath with its separators trimmed, left out where it is empty or `.`.
pub open spec fn base_url_of(pack: RegistryPack) -> Seq<char> {
    let p = trim_end_slashes(trim_start_slashes(pack.source_path@));
    let root = "https://raw.githubusercontent.com/"@ + pack.source_repo@ + "/"@ + pack.source_ref@;
    if p.len() == 0 || p == seq!['.'] {
        root
    } else {
        root + "/"@ + p
    }
}

pub fn pack_base_url(pack: &RegistryPack) -> (r: String)
    ensures
        r@ == base_url_of(*pack),
{
    let path = trim_slashes(pack.source_path.as_str());
    let mut url = String::from_str("https://raw.githubusercontent.com/");
    url.append(pack.source_repo.as_str());
    url.append("/");
    url.append(pack.source_ref.as_str());
    let n = path.unicode_len();
    if n == 0 || (n == 1 && path.get_char(0) == '.') {
        assert(n == 1 ==> path@ =~= seq!['.']);
        url
    } else {
        assert(path@ != seq!['.']);
        url.append("/");
        url.append(path);
        url
    }
}

/// Location of the manifest under a pack's base location.
pub fn manifest_url(base: &str) -> (r: String)
    ensures
        r@ == base@ + "/openpeon.json"@,
{
    let mut url = String::from_str(base);
    url.append("/openpeon.json");
    url
}

/// Location of one sound file under a pack's base location.
pub fn sound_url(base: &str, file: &str) -> (r: String)
    ensures
        r@ == base@ + "/sounds/"@ + file@,
{
    let mut url = String::from_str(base);
    url.append("/sounds/");
    url.append(file);
    url
}

} // verus!
