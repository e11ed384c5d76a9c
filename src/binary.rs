//! Decisions of the formatter binary's acquisition: the supported platforms,
//! which release asset to fetch, when the cache is current, which archive
//! entry is the binary, and how a failed refresh falls back to the cache.

use vstd::prelude::*;
use crate::text::{
    chars_of, find_chars, find_from, last_index_of, rfind_char, same_chars, str_eq, sub_chars, trim,
    trim_bounds,
};
use vstd::string::StringExecFns;

verus! {

/// Operating systems the formatter is published for.
#[derive(PartialEq, Eq, Structural, Clone, Copy, Debug)]
pub enum OsKind {
    Linux,
    Macos,
    Windows,
}

/// Architectures the formatter is published for.
#[derive(PartialEq, Eq, Structural, Clone, Copy, Debug)]
pub enum ArchKind {
    X86_64,
    Aarch64,
}

/// A supported (operating system, architecture) pair.
#[derive(PartialEq, Eq, Structural, Clone, Copy, Debug)]
pub struct PlatformInfo {
    pub os: OsKind,
    pub arch: ArchKind,
}

/// The name an operating system goes by in asset names and cache paths.
pub open spec fn os_name(os: OsKind) -> Seq<char> {
    match os {
        OsKind::Linux => "linux"@,
        OsKind::Macos => "macos"@,
        OsKind::Windows => "windows"@,
    }
}

/// The name an architecture goes by in asset names and cache paths.
pub open spec fn arch_name(arch: ArchKind) -> Seq<char> {
    match arch {
        ArchKind::X86_64 => "x86_64"@,
        ArchKind::Aarch64 => "aarch64"@,
    }
}

/// The executable's file name on a platform.
pub open spec fn binary_name(os: OsKind) -> Seq<char> {
    match os {
        OsKind::Windows => "gdscript-formatter.exe"@,
        _ => "gdscript-formatter"@,
    }
}

impl PlatformInfo {
    /// Name of the operating system.
    pub fn os_str(&self) -> (r: &'static str)
        ensures
            r@ == os_name(self.os),
    {
        match self.os {
            OsKind::Linux => "linux",
            OsKind::Macos => "macos",
            OsKind::Windows => "windows",
        }
    }

    /// Name of the architecture.
    pub fn arch_str(&self) -> (r: &'static str)
        ensures
            r@ == arch_name(self.arch),
    {
        match self.arch {
            ArchKind::X86_64 => "x86_64",
            ArchKind::Aarch64 => "aarch64",
        }
    }

    /// File name of the executable.
    pub fn binary_name(&self) -> (r: &'static str)
        ensures
            r@ == binary_name(self.os),
    {
        match self.os {
            OsKind::Windows => "gdscript-formatter.exe",
            _ => "gdscript-formatter",
        }
    }

    /// Cache subdirectory of the platform: `{os}-{arch}`.
    pub fn dir_name(&self) -> (r: String)
        ensures
            r@ == os_name(self.os) + "-"@ + arch_name(self.arch),
    {
        let s = String::from_str(self.os_str());
        let s = s.concat("-");
        s.concat(self.arch_str())
    }
}

/// The platform for the running system's OS and architecture names, when it
/// is one the formatter is published for.
pub fn detect_platform(os: &str, arch: &str) -> (r: Option<PlatformInfo>)
    ensures
        r matches Some(p) ==> os_name(p.os) == os@ && arch_name(p.arch) == arch@,
        r is None ==> (forall|o: OsKind, a: ArchKind| !(os_name(o) == os@ && arch_name(a) == arch@)),
{
    let o = if str_eq(os, "linux") {
        OsKind::Linux
    } else if str_eq(os, "macos") {
        OsKind::Macos
    } else if str_eq(os, "windows") {
        OsKind::Windows
    } else {
        assert forall|o: OsKind, a: ArchKind| !(os_name(o) == os@ && arch_name(a) == arch@) by {
            match o {
                OsKind::Linux => {},
                OsKind::Macos => {},
                OsKind::Windows => {},
            }
        }
        return None;
    };
    let a = if str_eq(arch, "x86_64") {
        ArchKind::X86_64
    } else if str_eq(arch, "aarch64") {
        ArchKind::Aarch64
    } else {
        assert forall|o: OsKind, a: ArchKind| !(os_name(o) == os@ && arch_name(a) == arch@) by {
            match a {
                ArchKind::X86_64 => {},
                ArchKind::Aarch64 => {},
            }
        }
        return None;
    };
    Some(PlatformInfo { os: o, arch: a })
}


/// One downloadable file of a release.
#[derive(Debug)]
pub struct ReleaseAsset {
    pub name: String,
    pub browser_download_url: String,
}

/// The latest release: its tag and its assets, in the order listed.
#[derive(Debug)]
pub struct ReleaseInfo {
    pub tag_name: String,
    pub assets: Vec<ReleaseAsset>,
}

/// `p` is a prefix of `s`.
pub open spec fn has_prefix(s: Seq<char>, p: Seq<char>) -> bool {
    p.len() <= s.len() && s.take(p.len() as int) == p
}

/// `p` is a suffix of `s`.
pub open spec fn has_suffix(s: Seq<char>, p: Seq<char>) -> bool {
    p.len() <= s.len() && s.skip(s.len() - p.len()) == p
}

/// The asset is the formatter's archive for the platform.
pub open spec fn asset_fits(name: Seq<char>, p: PlatformInfo) -> bool {
    has_prefix(name, "gdscript-formatter-"@) && find_from(
        name,
        "-"@ + os_name(p.os) + "-"@ + arch_name(p.arch),
        0,
    ) is Some && has_suffix(name, ".zip"@)
}

fn starts_with(s: &Vec<char>, p: &Vec<char>) -> (r: bool)
    ensures
        r == has_prefix(s@, p@),
{
    if p.len() > s.len() {
        return false;
    }
    let head = sub_chars(s, 0, p.len());
    assert(head@ =~= s@.take(p.len() as int));
    same_chars(&head, p)
}

fn ends_with(s: &Vec<char>, p: &Vec<char>) -> (r: bool)
    ensures
        r == has_suffix(s@, p@),
{
    if p.len() > s.len() {
        return false;
    }
    let tail = sub_chars(s, s.len() - p.len(), s.len());
    assert(tail@ =~= s@.skip(s.len() - p.len()));
    same_chars(&tail, p)
}

/// The first asset whose name starts with the formatter's prefix, holds
/// `-{os}-{arch}` and ends in `.zip`; an error naming the platform and the
/// release when there is none.
pub fn select_asset_for_platform<'a>(release: &'a ReleaseInfo, platform: &PlatformInfo) -> (r: Result<&'a ReleaseAsset, String>)
    ensures
        r matches Ok(a) ==> exists|i: int|
            0 <= i < release.assets.len() && release.assets@[i] == *a && asset_fits(a.name@, *platform)
                && forall|j: int| 0 <= j < i ==> !asset_fits(#[trigger] release.assets@[j].name@, *platform),
        r is Err <==> forall|j: int| 0 <= j < release.assets.len() ==> !asset_fits(#[trigger] release.assets@[j].name@, *platform),
        r is Err ==> r->Err_0@ == "No downloadable formatter asset found for "@ + os_name(platform.os)
            + "-"@ + arch_name(platform.arch) + " in release "@ + release.tag_name@,
{
    let needle_s = String::from_str("-").concat(platform.os_str()).concat("-").concat(platform.arch_str());
    let needle = chars_of(needle_s.as_str());
    let prefix = chars_of("gdscript-formatter-");
    let suffix = chars_of(".zip");
    let mut i: usize = 0;
    while i < release.assets.len()
        invariant
            i <= release.assets.len(),
            needle@ == "-"@ + os_name(platform.os) + "-"@ + arch_name(platform.arch),
            prefix@ == "gdscript-formatter-"@,
            suffix@ == ".zip"@,
            forall|j: int| 0 <= j < i ==> !asset_fits(#[trigger] release.assets@[j].name@, *platform),
        decreases release.assets.len() - i,
    {
        let name = chars_of(release.assets[i].name.as_str());
        if starts_with(&name, &prefix) && find_chars(&name, &needle, 0).is_some() && ends_with(&name, &suffix) {
            return Ok(&release.assets[i]);
        }
        i = i + 1;
    }
    let msg = String::from_str("No downloadable formatter asset found for ").concat(platform.os_str()).concat(
        "-",
    ).concat(platform.arch_str()).concat(" in release ").concat(release.tag_name.as_str());
    Err(msg)
}

/// The cache needs a download unless its marker holds the release's tag,
/// once trimmed, and the binary is present.
pub open spec fn download_needed(marker: Option<Seq<char>>, tag: Seq<char>, binary_exists: bool) -> bool {
    !(marker matches Some(m) && trim(m) == tag && binary_exists)
}

/// Whether the cached binary must be replaced by the release's.
pub fn needs_download(marker: Option<&str>, tag: &str, binary_exists: bool) -> (r: bool)
    ensures
        r == download_needed(
            match marker {
                Some(m) => Some(m@),
                None => None,
            },
            tag@,
            binary_exists,
        ),
{
    match marker {
        None => true,
        Some(m) => {
            let cs = chars_of(m);
            let (a, b) = trim_bounds(&cs, 0, cs.len());
            assert(cs@.subrange(0, cs.len() as int) =~= cs@);
            let t = sub_chars(&cs, a, b);
            !(same_chars(&t, &chars_of(tag)) && binary_exists)
        },
    }
}

/// What the version marker holds after an install: the tag and a newline.
pub fn version_marker(tag: &str) -> (r: String)
    ensures
        r@ == tag@ + "\n"@,
{
    String::from_str(tag).concat("\n")
}

/// The part of an archive entry's name after its last `/`.
pub open spec fn base_name(name: Seq<char>) -> Seq<char> {
    name.skip(last_index_of(name, '/') + 1)
}

/// Whether an archive entry is the executable: a file whose base name is
/// the expected one.
pub fn is_expected_binary_entry(entry_name: &str, is_dir: bool, expected: &str) -> (r: bool)
    ensures
        r == (!is_dir && base_name(entry_name@) == expected@),
{
    if is_dir {
        return false;
    }
    let cs = chars_of(entry_name);
    let start = match rfind_char(&cs, 0, cs.len(), '/') {
        Some(k) => k + 1,
        None => 0,
    };
    assert(cs@.subrange(0, cs.len() as int) =~= cs@);
    let base = sub_chars(&cs, start, cs.len());
    assert(base@ =~= base_name(entry_name@));
    same_chars(&base, &chars_of(expected))
}

/// Where a refresh of the cache ended.
#[derive(Debug)]
pub enum UpdateOutcome {
    /// The cache holds the latest release.
    Current,
    /// The release metadata could not be fetched.
    FetchFailed { reason: String },
    /// The metadata came but the update did not complete.
    UpdateFailed { reason: String },
}

/// Which binary to run.
#[derive(Debug)]
pub enum BinaryChoice {
    /// The freshly checked binary.
    Fresh,
    /// The cached binary, kept after a failed refresh; the warning says why.
    Stale { warning: String },
}

/// The warning or error text for a failed refresh.
pub open spec fn fallback_text(outcome: UpdateOutcome, cached: bool) -> Seq<char> {
    match outcome {
        UpdateOutcome::Current => seq![],
        UpdateOutcome::FetchFailed { reason } => if cached {
            "Warning: could not fetch latest release, using cached formatter: "@ + reason@
        } else {
            "Failed to fetch latest release and no cached formatter found: "@ + reason@
        },
        UpdateOutcome::UpdateFailed { reason } => if cached {
            "Warning: could not update formatter, using cached binary: "@ + reason@
        } else {
            "Failed to update formatter and no cached formatter found: "@ + reason@
        },
    }
}

/// The binary to use after a refresh: the fresh one when it succeeded; after
/// a failure the cached one with a warning when it exists, else an error.
pub fn choose_binary(outcome: &UpdateOutcome, cached_exists: bool) -> (r: Result<BinaryChoice, String>)
    ensures
        outcome is Current ==> r matches Ok(BinaryChoice::Fresh),
        !(outcome is Current) && cached_exists ==> (r matches Ok(BinaryChoice::Stale { warning })
            && warning@ == fallback_text(*outcome, true)),
        !(outcome is Current) && !cached_exists ==> (r matches Err(e) && e@ == fallback_text(
            *outcome,
            false,
        )),
{
    match outcome {
        UpdateOutcome::Current => Ok(BinaryChoice::Fresh),
        UpdateOutcome::FetchFailed { reason } => if cached_exists {
            Ok(
                BinaryChoice::Stale {
                    warning: String::from_str(
                        "Warning: could not fetch latest release, using cached formatter: ",
                    ).concat(reason.as_str()),
                },
            )
        } else {
            Err(
                String::from_str(
                    "Failed to fetch latest release and no cached formatter found: ",
                ).concat(reason.as_str()),
            )
        },
        UpdateOutcome::UpdateFailed { reason } => if cached_exists {
            Ok(
                BinaryChoice::Stale {
                    warning: String::from_str(
                        "Warning: could not update formatter, using cached binary: ",
                    ).concat(reason.as_str()),
                },
            )
        } else {
            Err(
                String::from_str(
                    "Failed to update formatter and no cached formatter found: ",
                ).concat(reason.as_str()),
            )
        },
    }
}

/// An optional path as a list of zero or one path.
pub open spec fn maybe(p: Option<String>) -> Seq<Seq<char>> {
    match p {
        Some(s) => seq![s@],
        None => seq![],
    }
}

/// The cache-home default: under the XDG cache home when it is set, else
/// under the home directory's cache, else the local fallback.
pub open spec fn default_cache_dir(xdg: Option<String>, home: Option<String>, local: Seq<char>) -> Seq<char> {
    match xdg {
        Some(x) => x@,
        None => match home {
            Some(h) => h@,
            None => local,
        },
    }
}

/// The cache roots to try, in order: the explicit override, the cache-home
/// default, the directory under the working directory, the temp directory.
/// Each argument is that candidate's full path, when it exists.
pub fn cache_root_candidates(
    custom: Option<String>,
    xdg: Option<String>,
    home: Option<String>,
    local: String,
    cwd: Option<String>,
    temp: String,
) -> (r: Vec<String>)
    ensures
        crate::format::string_views(r@) == maybe(custom) + seq![default_cache_dir(xdg, home, local@)]
            + maybe(cwd) + seq![temp@],
{
    let ghost (c0, x0, h0, l0, w0, t0) = (custom, xdg, home, local, cwd, temp);
    let mut out: Vec<String> = Vec::new();
    if let Some(c) = custom {
        out.push(c);
    }
    let default = match xdg {
        Some(x) => x,
        None => match home {
            Some(h) => h,
            None => local,
        },
    };
    out.push(default);
    if let Some(w) = cwd {
        out.push(w);
    }
    out.push(temp);
    assert(crate::format::string_views(out@) =~= maybe(c0) + seq![default_cache_dir(x0, h0, l0@)]
        + maybe(w0) + seq![t0@]);
    out
}

} // verus!
