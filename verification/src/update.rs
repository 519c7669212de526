//! The release check's pure core: reading versions and build numbers out
//! of release tags, deciding whether a published release is newer than the
//! running one, and assembling the update description the shell presents.
//! The HTTP fetch of the release list stays with the shell.
use vstd::prelude::*;

use crate::text::{
    ends_with, find_char, lemma_spec_find_properties, parse_uint_capped, spec_find,
    spec_parse_uint, starts_with, str_eq,
};

verus! {

/// `s` without its leading `v` characters, as release tags are written
/// `v1.2.3` and version numbers `1.2.3`.
pub open spec fn strip_leading_vs(s: Seq<char>) -> Seq<char>
    decreases s.len(),
{
    if s.len() > 0 && s[0] == 'v' {
        strip_leading_vs(s.drop_first())
    } else {
        s
    }
}

/// The part of `s` before the first occurrence of `c`; all of `s` when `c`
/// does not occur.
pub open spec fn spec_before(s: Seq<char>, c: char) -> Seq<char> {
    match spec_find(s, c) {
        Some(i) => s.subrange(0, i),
        None => s,
    }
}

/// The version a release tag denotes: leading `v` characters dropped, then
/// everything before the first dash.
pub open spec fn spec_version_of_tag(tag: Seq<char>) -> Seq<char> {
    spec_before(strip_leading_vs(tag), '-')
}

/// `s` without its leading repetitions of `build`.
pub open spec fn strip_leading_builds(s: Seq<char>) -> Seq<char>
    decreases s.len(),
{
    if "build"@.len() > 0 && "build"@.is_prefix_of(s) {
        strip_leading_builds(s.skip("build"@.len() as int))
    } else {
        s
    }
}

/// The build number a release tag carries: in the first dash-separated
/// part that starts with `build`, the rest of that part read as a 32-bit
/// number — and only that part, whether or not it reads as a number.
pub open spec fn spec_build_number(s: Seq<char>) -> Option<u32>
    decreases s.len(),
    via spec_build_number_decreases
{
    if "build"@.is_prefix_of(spec_before(s, '-')) {
        match spec_parse_uint(strip_leading_builds(spec_before(s, '-')), 0xFFFF_FFFF) {
            Some(v) => Some(v as u32),
            None => None,
        }
    } else {
        match spec_find(s, '-') {
            Some(i) => spec_build_number(s.subrange(i + 1, s.len() as int)),
            None => None,
        }
    }
}

#[via_fn]
proof fn spec_build_number_decreases(s: Seq<char>) {
    lemma_spec_find_properties(s, '-');
}

/// The build number a tag carries, defaulting to zero when it has none.
pub open spec fn spec_build_or_zero(tag: Seq<char>) -> u32 {
    match spec_build_number(tag) {
        Some(b) => b,
        None => 0,
    }
}

/// Extract the version from a release tag: `v0.2.4` and `v0.2.4-build5`
/// both yield `0.2.4`.
pub fn parse_version(tag: &str) -> (r: Option<String>)
    ensures
        r is Some,
        r->0@ == spec_version_of_tag(tag@),
{
    let mut rest: &str = tag;
    let mut n = rest.unicode_len();
    loop
        invariant
            n == rest@.len(),
            strip_leading_vs(tag@) == strip_leading_vs(rest@),
        ensures
            n == rest@.len(),
            strip_leading_vs(tag@) == rest@,
        decreases n,
    {
        if !(n > 0 && rest.get_char(0) == 'v') {
            break;
        }
        let ghost prev = rest@;
        rest = rest.substring_char(1, n);
        n = n - 1;
        proof {
            assert(rest@ =~= prev.drop_first());
        }
    }
    proof {
        lemma_spec_find_properties(rest@, '-');
    }
    let end = match find_char(rest, '-') {
        Some(i) => i,
        None => n,
    };
    let version = rest.substring_char(0, end);
    proof {
        assert(version@ =~= spec_before(rest@, '-'));
    }
    Some(version.to_owned())
}

/// Strip every leading `build` from a tag part.
fn strip_build_prefixes(p: &str) -> (r: &str)
    ensures
        r@ == strip_leading_builds(p@),
{
    proof {
        reveal_strlit("build");
    }
    let mut rem: &str = p;
    let mut m = rem.unicode_len();
    loop
        invariant
            m == rem@.len(),
            strip_leading_builds(p@) == strip_leading_builds(rem@),
        ensures
            strip_leading_builds(p@) == rem@,
        decreases m,
    {
        proof {
            reveal_strlit("build");
        }
        if !starts_with(rem, "build") {
            break;
        }
        let ghost prev = rem@;
        rem = rem.substring_char(5, m);
        m = m - 5;
        proof {
            assert(rem@ =~= prev.skip(5));
        }
    }
    rem
}

/// Extract the build number from a release tag: `v0.2.4-build5` yields 5,
/// a tag without a `build` part yields nothing.
pub fn parse_build_number(tag: &str) -> (r: Option<u32>)
    ensures
        r == spec_build_number(tag@),
{
    let mut rest: &str = tag;
    let mut n = rest.unicode_len();
    loop
        invariant
            n == rest@.len(),
            spec_build_number(tag@) == spec_build_number(rest@),
        decreases n,
    {
        proof {
            lemma_spec_find_properties(rest@, '-');
        }
        let dash = find_char(rest, '-');
        let end = match dash {
            Some(i) => i,
            None => n,
        };
        let part = rest.substring_char(0, end);
        proof {
            assert(part@ =~= spec_before(rest@, '-'));
        }
        if starts_with(part, "build") {
            let rem = strip_build_prefixes(part);
            return match parse_uint_capped(rem, 0xFFFF_FFFF) {
                Some(x) => Some(x as u32),
                None => None,
            };
        }
        match dash {
            Some(i) => {
                let ghost prev = rest@;
                rest = rest.substring_char(i + 1, n);
                n = n - (i + 1);
                proof {
                    assert(rest@ =~= prev.subrange(i + 1, prev.len() as int));
                }
            },
            None => {
                return None;
            },
        }
    }
}

/// What comparing two version texts as semantic versions yields: nothing
/// when either text is not a semantic version, otherwise the order of the
/// first with respect to the second under semver::Version's total derived
/// order — which, unlike pure SemVer precedence, also breaks ties on build
/// metadata. The outcome depends on the two texts alone.
pub uninterp spec fn semver_cmp(a: Seq<char>, b: Seq<char>) -> Option<core::cmp::Ordering>;

/// Relies on semver::Version::parse and on semver::Version's derived total
/// order (major, minor, patch, then pre-release, then build metadata):
/// both are functions of the version texts alone, so the combined outcome
/// carries the name `semver_cmp`; `None` comes exactly when either text
/// fails to parse.
#[verifier::external_body]
fn compare_semver(a: &str, b: &str) -> (r: Option<core::cmp::Ordering>)
    ensures
        r == semver_cmp(a@, b@),
{
    match (semver::Version::parse(a), semver::Version::parse(b)) {
        (Ok(va), Ok(vb)) => Some(va.cmp(&vb)),
        _ => None,
    }
}

/// The remote release is newer than the current one: by semver's version
/// order on the two version texts first; on an equal order by the build
/// numbers read from the two tags; and when either version fails to parse,
/// by plain inequality of the version texts.
pub open spec fn spec_is_newer(
    current: Seq<char>,
    remote: Seq<char>,
    current_tag: Seq<char>,
    remote_tag: Seq<char>,
) -> bool {
    match semver_cmp(current, remote) {
        Some(o) => if o == core::cmp::Ordering::Less {
            true
        } else if o == core::cmp::Ordering::Greater {
            false
        } else {
            spec_build_or_zero(remote_tag) > spec_build_or_zero(current_tag)
        },
        None => remote != current,
    }
}

/// Is the remote version newer than the current one? Ties in semver's
/// version order are broken by the build numbers in the two tags;
/// unparsable versions fall back to plain string comparison.
pub fn is_newer_version(current: &str, remote: &str, current_tag: &str, remote_tag: &str) -> (r:
    bool)
    ensures
        r == spec_is_newer(current@, remote@, current_tag@, remote_tag@),
{
    match compare_semver(current, remote) {
        Some(o) => match o {
            core::cmp::Ordering::Less => true,
            core::cmp::Ordering::Greater => false,
            core::cmp::Ordering::Equal => {
                let cb = match parse_build_number(current_tag) {
                    Some(b) => b,
                    None => 0,
                };
                let rb = match parse_build_number(remote_tag) {
                    Some(b) => b,
                    None => 0,
                };
                rb > cb
            },
        },
        None => !str_eq(remote, current),
    }
}

/// The running application's version: the configured one when the host
/// supplies it, the zero version otherwise.
pub fn get_app_version(configured: Option<String>) -> (r: String)
    ensures
        match configured {
            Some(v) => r == v,
            None => r@ == "0.0.0"@,
        },
{
    match configured {
        Some(v) => v,
        None => "0.0.0".to_owned(),
    }
}

/// The platforms the client ships on; each installs a different release
/// asset.
#[derive(Clone, Copy, Debug, PartialEq, Eq, Structural)]
pub enum Platform {
    Linux,
    Windows,
    Android,
    Other,
}

/// The asset-name suffix each platform installs.
pub open spec fn spec_asset_pattern(p: Platform) -> Seq<char> {
    match p {
        Platform::Linux => ".AppImage"@,
        Platform::Windows => "-setup.exe"@,
        Platform::Android => "-debug.apk"@,
        Platform::Other => ""@,
    }
}

/// The suffix of the release asset name that `platform` installs.
pub fn get_asset_pattern(platform: Platform) -> (r: &'static str)
    ensures
        r@ == spec_asset_pattern(platform),
{
    match platform {
        Platform::Linux => ".AppImage",
        Platform::Windows => "-setup.exe",
        Platform::Android => "-debug.apk",
        Platform::Other => "",
    }
}

/// One downloadable asset of a published release.
pub struct GitHubAsset {
    pub name: String,
    pub browser_download_url: String,
}

/// One published release, as the release listing reports it.
pub struct GitHubRelease {
    pub tag_name: String,
    pub name: String,
    pub body: String,
    pub html_url: String,
    pub published_at: String,
    pub assets: Vec<GitHubAsset>,
    pub prerelease: bool,
}

/// Information about an available update.
pub struct UpdateInfo {
    /// Version string (e.g. `0.2.4`).
    pub version: String,
    /// Full tag name (e.g. `v0.2.4-build5`).
    pub tag: String,
    /// Release name.
    pub name: String,
    /// Release notes.
    pub body: String,
    /// Platform-specific download URL.
    pub download_url: String,
    /// Full release page URL.
    pub release_url: String,
    /// Publication date.
    pub published_at: String,
}

/// The download URL chosen for a platform: that of the first asset whose
/// name ends with `pattern`, or `fallback` (the release page) when none
/// matches.
pub open spec fn spec_download_url(
    assets: Seq<GitHubAsset>,
    pattern: Seq<char>,
    fallback: Seq<char>,
) -> Seq<char>
    decreases assets.len(),
{
    if assets.len() == 0 {
        fallback
    } else if pattern.is_suffix_of(assets.first().name@) {
        assets.first().browser_download_url@
    } else {
        spec_download_url(assets.drop_first(), pattern, fallback)
    }
}

fn select_download_url(assets: &Vec<GitHubAsset>, pattern: &str, fallback: &String) -> (r: String)
    ensures
        r@ == spec_download_url(assets@, pattern@, fallback@),
{
    let n = assets.len();
    let mut i: usize = 0;
    proof {
        assert(assets@.skip(0) =~= assets@);
    }
    while i < n
        invariant
            i <= n,
            n == assets@.len(),
            spec_download_url(assets@, pattern@, fallback@) == spec_download_url(
                assets@.skip(i as int),
                pattern@,
                fallback@,
            ),
        decreases n - i,
    {
        proof {
            assert(assets@.skip(i as int).first() == assets@[i as int]);
        }
        if ends_with(assets[i].name.as_str(), pattern) {
            return assets[i].browser_download_url.clone();
        }
        proof {
            assert(assets@.skip(i as int).drop_first() =~= assets@.skip(i + 1));
        }
        i = i + 1;
    }
    fallback.clone()
}

/// Decide whether `release` is an update over the running version and, if
/// so, assemble what the shell presents: the parsed remote version, the
/// tag, name and notes of the release, the download URL for this
/// platform's asset, the release page, and the publication date.
pub fn evaluate_release(
    current_version: &str,
    current_tag: &str,
    release: &GitHubRelease,
    pattern: &str,
) -> (r: Option<UpdateInfo>)
    ensures
        ({
            let remote = spec_version_of_tag(release.tag_name@);
            if spec_is_newer(current_version@, remote, current_tag@, release.tag_name@) {
                r is Some && r->0.version@ == remote && r->0.tag@ == release.tag_name@
                    && r->0.name@ == release.name@ && r->0.body@ == release.body@
                    && r->0.download_url@ == spec_download_url(
                    release.assets@,
                    pattern@,
                    release.html_url@,
                ) && r->0.release_url@ == release.html_url@ && r->0.published_at@
                    == release.published_at@
            } else {
                r is None
            }
        }),
{
    // parse_version yields a version for every tag, so the None arm is
    // unreachable.
    let remote_version = match parse_version(release.tag_name.as_str()) {
        Some(v) => v,
        None => String::new(),
    };
    if !is_newer_version(
        current_version,
        remote_version.as_str(),
        current_tag,
        release.tag_name.as_str(),
    ) {
        return None;
    }
    let download_url = select_download_url(&release.assets, pattern, &release.html_url);
    Some(
        UpdateInfo {
            version: remote_version,
            tag: release.tag_name.clone(),
            name: release.name.clone(),
            body: release.body.clone(),
            download_url,
            release_url: release.html_url.clone(),
            published_at: release.published_at.clone(),
        },
    )
}

} // verus!
