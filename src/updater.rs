//! Self-update decisions: whether a release is newer, and which asset to fetch.
use vstd::prelude::*;
use crate::error::HookError;
use crate::version::{is_digit, is_newer, lex_greater, version_parts};

verus! {

/// Where the latest release's metadata is published.
pub fn latest_release_url() -> (r: &'static str)
    ensures
        r@ == "https://api.github.com/repos/nickagliano/hookplayer/releases/latest"@,
{
    "https://api.github.com/repos/nickagliano/hookplayer/releases/latest"
}

/// A release tag without its one leading non-numeric prefix character.
pub open spec fn tag_version(tag: Seq<char>) -> Seq<char> {
    if tag.len() > 0 && !is_digit(tag[0]) {
        tag.drop_first()
    } else {
        tag
    }
}

/// The version that a release tag names (`v1.2.0` names `1.2.0`).
pub fn release_version(tag: &str) -> (r: &str)
    ensures
        r@ == tag_version(tag@),
{
    let n = tag.unicode_len();
    if n > 0 {
        let c = tag.get_char(0);
        if !('0' <= c && c <= '9') {
            let r = tag.substring_char(1, n);
            assert(r@ =~= tag@.drop_first());
            return r;
        }
    }
    assert(tag@.subrange(0, n as int) =~= tag@);
    tag.substring_char(0, n)
}

/// The operating systems that have release builds.
pub open spec fn supported_os(os: Seq<char>) -> bool {
    os == "macos"@ || os == "linux"@
}

/// The operating system's name as release assets spell it; an unsupported
/// system is an error.
pub fn platform_os(os: &str) -> (r: Result<&'static str, HookError>)
    ensures
        r is Ok <==> supported_os(os@),
        r is Ok ==> r->Ok_0@ == os@,
        r is Err ==> (r->Err_0 matches HookError::UnsupportedPlatform(o) && o@ == os@),
{
    if crate::text::same_text(os, "macos") {
        Ok("macos")
    } else if crate::text::same_text(os, "linux") {
        Ok("linux")
    } else {
        Err(HookError::UnsupportedPlatform(String::from_str(os)))
    }
}

/// The release asset built for an operating system and CPU architecture.
pub open spec fn asset_name_of(os: Seq<char>, arch: Seq<char>) -> Seq<char> {
    "hookplayer-"@ + os + "-"@ + arch
}

/// Where the asset of a release is downloaded from.
pub open spec fn asset_url_of(tag: Seq<char>, asset: Seq<char>) -> Seq<char> {
    "https://github.com/nickagliano/hookplayer/releases/download/"@ + tag + "/"@ + asset
}

/// What the update check decided.
pub enum UpdatePlan {
    /// The running version is the latest or newer.
    UpToDate,
    /// A newer version is out: fetch `url` and put it in place of the
    /// running executable.
    Download { latest: String, asset: String, url: String },
}

/// Decides an update from the running version, the latest release's tag, and
/// the platform. Nothing is to be fetched where the release is not newer; an
/// unsupported operating system is reported before any asset is requested.
pub fn plan_update(current: &str, tag: &str, os: &str, arch: &str) -> (r: Result<UpdatePlan, HookError>)
    ensures
        ({
            let newer = lex_greater(version_parts(tag_version(tag@)), version_parts(current@));
            &&& (r matches Ok(UpdatePlan::UpToDate)) <==> !newer
            &&& r is Err <==> newer && !supported_os(os@)
            &&& r is Err ==> (r->Err_0 matches HookError::UnsupportedPlatform(o) && o@ == os@)
            &&& r matches Ok(UpdatePlan::Download { latest, asset, url }) ==> {
                &&& latest@ == tag_version(tag@)
                &&& asset@ == asset_name_of(os@, arch@)
                &&& url@ == asset_url_of(tag@, asset_name_of(os@, arch@))
            }
        }),
{
    let latest = release_version(tag);
    if !is_newer(latest, current) {
        return Ok(UpdatePlan::UpToDate);
    }
    let os_name = match platform_os(os) {
        Ok(o) => o,
        Err(e) => {
            return Err(e);
        },
    };
    let mut asset = String::from_str("hookplayer-");
    asset.append(os_name);
    asset.append("-");
    asset.append(arch);
    let mut url = String::from_str("https://github.com/nickagliano/hookplayer/releases/download/");
    url.append(tag);
    url.append("/");
    url.append(asset.as_str());
    Ok(UpdatePlan::Download { latest: String::from_str(latest), asset, url })
}

} // verus!
