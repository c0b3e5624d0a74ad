use vstd::prelude::*;

use crate::text::{ascii_lower_seq, cat, own, str_eq, to_ascii_lowercase};

verus! {

/// The release asset the Windows build updates from.
pub const WINDOWS_ASSET: &'static str = "Nyx-x86_64-windows.zip";

/// A newer release: its version and release notes.
pub struct UpdateInfo {
    pub version: String,
    pub changelog: String,
}

/// What `self_update::version::bump_is_greater` answers for two version
/// texts: whether `other` is a greater semantic version than `current`, or
/// the error text when either is no version.
pub uninterp spec fn bump_greater(current: Seq<char>, other: Seq<char>) -> Result<bool, Seq<char>>;

/// Whether `other` is a newer semantic version than `current`
/// (`self_update::version::bump_is_greater`; its error as text).
#[verifier::external_body]
fn bump_is_greater(current: &str, other: &str) -> (r: Result<bool, String>)
    ensures
        match r {
            Ok(b) => bump_greater(current@, other@) == Ok::<bool, Seq<char>>(b),
            Err(e) => bump_greater(current@, other@) == Err::<bool, Seq<char>>(e@),
        },
{
    match self_update::version::bump_is_greater(current, other) {
        Ok(b) => Ok(b),
        Err(e) => Err(e.to_string()),
    }
}

/// The answer of an update check given the version comparison: the
/// comparison's error, no update when the release is not newer, else the
/// release's version and notes (empty when it has none).
pub fn update_from(newer: Result<bool, String>, version: String, body: Option<String>) -> (r: Result<Option<UpdateInfo>, String>)
    ensures
        match newer {
            Err(e) => r matches Err(x) && x@ == e@,
            Ok(false) => r matches Ok(None),
            Ok(true) => r matches Ok(Some(u)) && u.version@ == version@ && u.changelog@ == (match body {
                Some(b) => b@,
                None => Seq::<char>::empty(),
            }),
        },
{
    match newer {
        Err(e) => Err(e),
        Ok(false) => Ok(None),
        Ok(true) => Ok(
            Some(
                UpdateInfo {
                    version,
                    changelog: match body {
                        Some(b) => b,
                        None => String::new(),
                    },
                },
            ),
        ),
    }
}

/// Checks the latest release (`version`, notes `body`) against the running
/// version `current`.
pub fn check_release(current: &str, version: String, body: Option<String>) -> (r: Result<Option<UpdateInfo>, String>)
    ensures
        match bump_greater(current@, version@) {
            Err(e) => r matches Err(x) && x@ == e,
            Ok(false) => r matches Ok(None),
            Ok(true) => r matches Ok(Some(u)) && u.version@ == version@ && u.changelog@ == (match body {
                Some(b) => b@,
                None => Seq::<char>::empty(),
            }),
        },
{
    let newer = bump_is_greater(current, version.as_str());
    update_from(newer, version, body)
}

/// The tag a release version is published under: `v<version>`.
pub fn release_tag(version: &str) -> (r: String)
    ensures
        r@ == "v"@ + version@,
{
    cat("v", version)
}

/// The download URL of the Windows asset among a release's `(name, url)`
/// assets (names compared ignoring ASCII case), or the error naming it.
pub fn windows_asset_url(assets: &Vec<(String, String)>) -> (r: Result<String, String>)
    ensures
        match r {
            Ok(u) => exists|j: int|
                0 <= j < assets@.len() && ascii_lower_seq(#[trigger] assets@[j].0@) == ascii_lower_seq(WINDOWS_ASSET@)
                    && u@ == assets@[j].1@ && forall|k: int|
                    0 <= k < j ==> ascii_lower_seq(#[trigger] assets@[k].0@) != ascii_lower_seq(WINDOWS_ASSET@),
            Err(e) => e@ == "release asset Nyx-x86_64-windows.zip not found"@ && forall|k: int|
                0 <= k < assets@.len() ==> ascii_lower_seq(#[trigger] assets@[k].0@) != ascii_lower_seq(WINDOWS_ASSET@),
        },
{
    let want = to_ascii_lowercase(WINDOWS_ASSET);
    let mut i: usize = 0;
    while i < assets.len()
        invariant
            i <= assets.len(),
            want@ == ascii_lower_seq(WINDOWS_ASSET@),
            forall|k: int| 0 <= k < i ==> ascii_lower_seq(#[trigger] assets@[k].0@) != ascii_lower_seq(WINDOWS_ASSET@),
        decreases assets.len() - i,
    {
        let name = to_ascii_lowercase(assets[i].0.as_str());
        if str_eq(name.as_str(), want.as_str()) {
            return Ok(assets[i].1.clone());
        }
        i += 1;
    }
    Err(own("release asset Nyx-x86_64-windows.zip not found"))
}

/// Whether this install may update itself: not from a Nix store or on NixOS,
/// and only where the executable can be written.
pub fn self_update_allowed(nix_managed: bool, writable: bool, exe: &str) -> (r: Result<(), String>)
    ensures
        nix_managed ==> (r matches Err(e) && e@
            == "self-update is not available on NixOS — update the Nyx flake input / package instead"@),
        !nix_managed && !writable ==> (r matches Err(e) && e@ == "no write access to "@ + exe@
            + " — update Nyx via your package manager"@),
        !nix_managed && writable ==> r is Ok,
{
    if nix_managed {
        return Err(own("self-update is not available on NixOS — update the Nyx flake input / package instead"));
    }
    if !writable {
        let mut s = cat("no write access to ", exe);
        s.push_str(" — update Nyx via your package manager");
        return Err(s);
    }
    Ok(())
}

} // verus!
