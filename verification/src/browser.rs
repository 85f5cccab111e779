//! Decisions of the headless browser session: where to look for the
//! browser binary, which profile folders are stale, which flags it starts
//! with, and how often a locked profile folder is retried.

use vstd::prelude::*;
use vstd::string::StringExecFns;
use vstd::utf8::encode_utf8;
use crate::text::{split_ascii, split_ranges, starts_with};

verus! {

/// The operating system the browser runs on.
#[derive(Debug, Clone, Copy, PartialEq, Eq, Structural)]
pub enum HostOs {
    Windows,
    MacOs,
    Linux,
}

/// The file name of the headless browser binary.
pub fn headless_shell_binary(os: HostOs) -> (r: &'static str)
    ensures
        r@ == (if os == HostOs::Windows { "chrome-headless-shell.exe"@ } else { "chrome-headless-shell"@ }),
{
    if os == HostOs::Windows {
        "chrome-headless-shell.exe"
    } else {
        "chrome-headless-shell"
    }
}

/// The byte that separates the entries of the `PATH` variable.
pub open spec fn path_separator(os: HostOs) -> u8 {
    if os == HostOs::Windows { 59u8 } else { 58u8 }
}

/// Splits the value of the `PATH` variable into its entries (`;` on
/// Windows, `:` elsewhere), empty entries included.
pub fn split_path_list(paths: &str, os: HostOs) -> (r: Vec<String>)
    ensures
        r.len() == split_ranges(encode_utf8(paths@), path_separator(os)).len(),
        forall|k: int|
            #![trigger r@[k]]
            0 <= k < r.len() ==> encode_utf8(r@[k]@) == encode_utf8(paths@).subrange(
                split_ranges(encode_utf8(paths@), path_separator(os))[k].0,
                split_ranges(encode_utf8(paths@), path_separator(os))[k].1,
            ),
{
    let sep: u8 = if os == HostOs::Windows { 59 } else { 58 };
    split_ascii(paths, sep)
}

/// True for a folder name that may hold the browser (`chrome-headless-shell`
/// with any suffix, such as `-win64`).
pub fn is_headless_shell_dir(name: &str) -> (r: bool)
    ensures
        r == ("chrome-headless-shell"@.len() <= name@.len() && name@.subrange(0, "chrome-headless-shell"@.len() as int)
            == "chrome-headless-shell"@),
{
    starts_with(name, "chrome-headless-shell")
}

/// True for a profile folder left behind by an earlier session, which is
/// removed at start-up.
pub fn is_stale_profile_dir(name: &str) -> (r: bool)
    ensures
        r == ("chrome_profile_"@.len() <= name@.len() && name@.subrange(0, "chrome_profile_"@.len() as int)
            == "chrome_profile_"@),
{
    starts_with(name, "chrome_profile_")
}

/// Where the installation hint tells the user to put the browser.
pub fn install_hint(os: HostOs) -> (r: &'static str)
    ensures
        r@ == match os {
            HostOs::Windows => "%LOCALAPPDATA%\\Programs\\chrome-headless-shell-win64\\"@,
            HostOs::MacOs => "~/Applications/chrome-headless-shell-mac-x64/"@,
            HostOs::Linux => "~/.local/share/chrome-headless-shell-linux64/"@,
        },
{
    match os {
        HostOs::Windows => "%LOCALAPPDATA%\\Programs\\chrome-headless-shell-win64\\",
        HostOs::MacOs => "~/Applications/chrome-headless-shell-mac-x64/",
        HostOs::Linux => "~/.local/share/chrome-headless-shell-linux64/",
    }
}

/// The fixed command-line flags the browser starts with, in order.
pub open spec fn fixed_browser_flags() -> Seq<Seq<char>> {
    seq![
        "--headless=new"@,
        "--disable-extensions"@,
        "--use-gl=swiftshader"@,
        "--disable-gpu"@,
        "--no-startup-window"@,
        "--disable-software-rasterizer"@,
        "--disable-backgrounding-occluded-windows"@,
        "--disable-breakpad"@,
        "--disable-dev-shm-usage"@,
        "--ignore-certificate-errors"@,
        "--incognito"@,
    ]
}

/// The browser's command-line flags: the fixed flags, then the folder for
/// crash dumps.
pub fn browser_flags(crash_dumps_dir: &str) -> (r: Vec<String>)
    ensures
        r@.len() == 12,
        forall|i: int| 0 <= i < 11 ==> #[trigger] r@[i]@ == fixed_browser_flags()[i],
        r@[11]@ == "--crash-dumps-dir="@ + crash_dumps_dir@,
{
    let mut v: Vec<String> = Vec::new();
    v.push("--headless=new".to_owned());
    v.push("--disable-extensions".to_owned());
    v.push("--use-gl=swiftshader".to_owned());
    v.push("--disable-gpu".to_owned());
    v.push("--no-startup-window".to_owned());
    v.push("--disable-software-rasterizer".to_owned());
    v.push("--disable-backgrounding-occluded-windows".to_owned());
    v.push("--disable-breakpad".to_owned());
    v.push("--disable-dev-shm-usage".to_owned());
    v.push("--ignore-certificate-errors".to_owned());
    v.push("--incognito".to_owned());
    let mut last = "--crash-dumps-dir=".to_owned();
    last.append(crash_dumps_dir);
    v.push(last);
    v
}

/// Where the browser binary is taken from.
#[derive(Debug, Clone, Copy, PartialEq, Eq, Structural)]
pub enum BinarySource {
    /// The path `CHROME_PATH` names.
    Override,
    /// The entry of `PATH` at this index, which holds the binary.
    PathEntry(usize),
    /// The installation folder guessed below the user's folders.
    Fallback,
}

/// The order in which the browser binary is looked for: an explicit
/// `CHROME_PATH` first, then the first `PATH` entry that holds the binary
/// (`holds_binary[i]` for entry `i`), then the guessed installation folder.
pub fn binary_source(has_override: bool, holds_binary: &Vec<bool>) -> (r: BinarySource)
    ensures
        has_override ==> r == BinarySource::Override,
        !has_override ==> match r {
            BinarySource::PathEntry(i) => i < holds_binary@.len() && holds_binary@[i as int] && forall|j: int|
                0 <= j < i ==> !holds_binary@[j],
            BinarySource::Fallback => forall|j: int| 0 <= j < holds_binary@.len() ==> !holds_binary@[j],
            BinarySource::Override => false,
        },
{
    if has_override {
        return BinarySource::Override;
    }
    let mut i: usize = 0;
    while i < holds_binary.len()
        invariant
            !has_override,
            i <= holds_binary@.len(),
            forall|j: int| 0 <= j < i ==> !holds_binary@[j],
        decreases holds_binary@.len() - i,
    {
        if holds_binary[i] {
            return BinarySource::PathEntry(i);
        }
        i = i + 1;
    }
    BinarySource::Fallback
}

/// The folder the installation is guessed in: the environment variable it
/// starts from (`LOCALAPPDATA` on Windows, `HOME` elsewhere) and the path
/// components below it.
pub fn fallback_base(os: HostOs) -> (r: (&'static str, Vec<&'static str>))
    ensures
        r.0@ == (if os == HostOs::Windows { "LOCALAPPDATA"@ } else { "HOME"@ }),
        r.1@.len() == (match os {
            HostOs::Windows => 1int,
            HostOs::MacOs => 1int,
            HostOs::Linux => 2int,
        }),
        os == HostOs::Windows ==> r.1@[0]@ == "Programs"@,
        os == HostOs::MacOs ==> r.1@[0]@ == "Applications"@,
        os == HostOs::Linux ==> r.1@[0]@ == ".local"@ && r.1@[1]@ == "share"@,
{
    let mut v: Vec<&'static str> = Vec::new();
    match os {
        HostOs::Windows => {
            v.push("Programs");
            ("LOCALAPPDATA", v)
        },
        HostOs::MacOs => {
            v.push("Applications");
            ("HOME", v)
        },
        HostOs::Linux => {
            v.push(".local");
            v.push("share");
            ("HOME", v)
        },
    }
}

/// What happens after the profile folder could not be removed.
#[derive(Debug, Clone, Copy, PartialEq, Eq, Structural)]
pub enum RemovalRetry {
    /// Leave the folder for the next start-up sweep.
    GiveUp,
    /// Wait `delay_ms` milliseconds and try again, `retries_left` tries left.
    RetryAfter { retries_left: u32, delay_ms: u64 },
}

/// The number of removal attempts a profile folder gets.
pub const PROFILE_REMOVAL_ATTEMPTS: u32 = 3;

/// The step after a failed removal with `retries` tries left: one try is
/// used up; with none left the folder is left alone, otherwise the next try
/// comes after 100 ms.
pub fn after_failed_removal(retries: u32) -> (r: RemovalRetry)
    requires
        retries > 0,
    ensures
        retries == 1 ==> r == RemovalRetry::GiveUp,
        retries > 1 ==> r == (RemovalRetry::RetryAfter { retries_left: (retries - 1) as u32, delay_ms: 100 }),
{
    let left = retries - 1;
    if left == 0 {
        RemovalRetry::GiveUp
    } else {
        RemovalRetry::RetryAfter { retries_left: left, delay_ms: 100 }
    }
}

/// The browser always starts headless (new mode), without extensions, with
/// software GL and no GPU, no startup window, no software rasteriser, no
/// background throttling, no crash reporter, no `/dev/shm`, ignoring
/// certificate errors, in incognito mode, in that order.
pub proof fn lemma_fixed_browser_flags()
    ensures
        fixed_browser_flags().len() == 11,
        fixed_browser_flags()[0] == "--headless=new"@,
        fixed_browser_flags()[1] == "--disable-extensions"@,
        fixed_browser_flags()[2] == "--use-gl=swiftshader"@,
        fixed_browser_flags()[3] == "--disable-gpu"@,
        fixed_browser_flags()[4] == "--no-startup-window"@,
        fixed_browser_flags()[5] == "--disable-software-rasterizer"@,
        fixed_browser_flags()[6] == "--disable-backgrounding-occluded-windows"@,
        fixed_browser_flags()[7] == "--disable-breakpad"@,
        fixed_browser_flags()[8] == "--disable-dev-shm-usage"@,
        fixed_browser_flags()[9] == "--ignore-certificate-errors"@,
        fixed_browser_flags()[10] == "--incognito"@,
{
}

} // verus!
