//! Decisions of the packaging tasks: which task a command line asks for,
//! the registry of distributable crates, where their files go, what the
//! archive is called, and which cargo arguments build them.

use vstd::prelude::*;
use vstd::string::StringExecFns;
use crate::browser::HostOs;
use crate::text::str_eq;

verus! {

/// A packaging task.
#[derive(Debug, Clone, Copy, PartialEq, Eq, Structural)]
pub enum Task {
    /// Remove the distribution and cache folders.
    Clean,
    /// Build the player.
    Build,
    /// Download dependencies and bundle a crate.
    Pack,
    /// Build, then pack.
    Dist,
    /// Validate the download URLs.
    CheckUrls,
}

/// The task a name selects, if it names one.
pub open spec fn task_named(name: Seq<char>) -> Option<Task> {
    if name == "clean"@ {
        Some(Task::Clean)
    } else if name == "build"@ {
        Some(Task::Build)
    } else if name == "pack"@ {
        Some(Task::Pack)
    } else if name == "dist"@ {
        Some(Task::Dist)
    } else if name == "check-urls"@ {
        Some(Task::CheckUrls)
    } else {
        None
    }
}

/// The task the first argument asks for: `dist` when there is none,
/// `None` for an unknown name.
pub fn parse_task(arg: Option<&str>) -> (r: Option<Task>)
    ensures
        r == task_named(
            match arg {
                Some(a) => a@,
                None => "dist"@,
            },
        ),
{
    let name = match arg {
        Some(a) => a,
        None => "dist",
    };
    if str_eq(name, "clean") {
        Some(Task::Clean)
    } else if str_eq(name, "build") {
        Some(Task::Build)
    } else if str_eq(name, "pack") {
        Some(Task::Pack)
    } else if str_eq(name, "dist") {
        Some(Task::Dist)
    } else if str_eq(name, "check-urls") {
        Some(Task::CheckUrls)
    } else {
        None
    }
}

/// The crate the second argument names, `hfm-player` when there is none.
pub fn crate_name_arg<'a>(arg: Option<&'a str>) -> (r: &'a str)
    ensures
        r@ == match arg {
            Some(a) => a@,
            None => "hfm-player"@,
        },
{
    match arg {
        Some(a) => a,
        None => "hfm-player",
    }
}

/// The operating system a name (as `std::env::consts::OS` gives it)
/// stands for, if packaging supports it.
pub fn os_named(name: &str) -> (r: Option<HostOs>)
    ensures
        r == (if name@ == "windows"@ {
            Some(HostOs::Windows)
        } else if name@ == "linux"@ {
            Some(HostOs::Linux)
        } else if name@ == "macos"@ {
            Some(HostOs::MacOs)
        } else {
            None
        }),
{
    if str_eq(name, "windows") {
        Some(HostOs::Windows)
    } else if str_eq(name, "linux") {
        Some(HostOs::Linux)
    } else if str_eq(name, "macos") {
        Some(HostOs::MacOs)
    } else {
        None
    }
}

/// Configuration for packaging one distributable crate.
#[derive(Debug, Clone)]
pub struct CrateConfig {
    /// The cargo package name.
    pub package: &'static str,
    /// The core engine binary (without extension).
    pub core_bin: &'static str,
    /// The name the core binary gets in `lib/` (without extension).
    pub core_renamed: &'static str,
    /// The launcher binary (without extension).
    pub launcher_bin: &'static str,
    /// The folder below `dist/`.
    pub dist_subdir: &'static str,
    /// The prefix of the archive's name.
    pub archive_prefix: &'static str,
    /// Whether GStreamer is bundled.
    pub needs_gstreamer: bool,
    /// Whether OpenVINO is bundled.
    pub needs_openvino: bool,
    /// Whether the ONNX models are bundled.
    pub needs_models: bool,
}

/// Why a packaging request was refused.
#[derive(Debug, Clone, PartialEq, Eq)]
pub enum PackError {
    /// No crate of that name is registered.
    UnknownCrate(String),
}

/// The one registered crate, the player.
pub open spec fn player_config_spec(c: CrateConfig) -> bool {
    &&& c.package@ == "hfm-player"@
    &&& c.core_bin@ == "hfm-player"@
    &&& c.core_renamed@ == "hfm-player-core"@
    &&& c.launcher_bin@ == "launcher"@
    &&& c.dist_subdir@ == "hfm-player"@
    &&& c.archive_prefix@ == "hfm-player"@
    &&& c.needs_gstreamer
    &&& c.needs_openvino
    &&& c.needs_models
}

/// The registry of distributable crates: `hfm-player` is the only one.
pub fn get_config(name: &str) -> (r: Result<CrateConfig, PackError>)
    ensures
        name@ == "hfm-player"@ <==> r is Ok,
        r matches Ok(c) ==> player_config_spec(c),
        r matches Err(PackError::UnknownCrate(n)) ==> n@ == name@,
{
    if str_eq(name, "hfm-player") {
        Ok(
            CrateConfig {
                package: "hfm-player",
                core_bin: "hfm-player",
                core_renamed: "hfm-player-core",
                launcher_bin: "launcher",
                dist_subdir: "hfm-player",
                archive_prefix: "hfm-player",
                needs_gstreamer: true,
                needs_openvino: true,
                needs_models: true,
            },
        )
    } else {
        Err(PackError::UnknownCrate(name.to_owned()))
    }
}

/// The format of the distribution archive.
#[derive(Debug, Clone, Copy, PartialEq, Eq, Structural)]
pub enum ArchiveFormat {
    Zip,
    TarGz,
}

/// A ZIP archive on Windows, a gzipped tarball elsewhere.
pub fn archive_format(os: HostOs) -> (r: ArchiveFormat)
    ensures
        r == (if os == HostOs::Windows { ArchiveFormat::Zip } else { ArchiveFormat::TarGz }),
{
    if os == HostOs::Windows {
        ArchiveFormat::Zip
    } else {
        ArchiveFormat::TarGz
    }
}

/// The end of the archive's name on each system.
pub open spec fn archive_suffix(os: HostOs) -> Seq<char> {
    match os {
        HostOs::Windows => "-windows-x64.zip"@,
        HostOs::Linux => "-linux-x86_64.tar.gz"@,
        HostOs::MacOs => "-macos-universal.tar.gz"@,
    }
}

/// The extension of an executable file.
pub fn executable_suffix(os: HostOs) -> (r: &'static str)
    ensures
        r@ == (if os == HostOs::Windows { ".exe"@ } else { ""@ }),
{
    if os == HostOs::Windows {
        ".exe"
    } else {
        ""
    }
}

/// How GStreamer reaches the distribution.
#[derive(Debug, Clone, Copy, PartialEq, Eq, Structural)]
pub enum GstreamerPlan {
    /// Download the wheels and copy their libraries into `lib/`.
    Bundle,
    /// Nothing is bundled; the system's installation is required.
    SystemInstall,
}

/// GStreamer is bundled on Windows and macOS and taken from the system on
/// Linux.
pub fn gstreamer_plan(os: HostOs) -> (r: GstreamerPlan)
    ensures
        r == (if os == HostOs::Linux { GstreamerPlan::SystemInstall } else { GstreamerPlan::Bundle }),
{
    if os == HostOs::Linux {
        GstreamerPlan::SystemInstall
    } else {
        GstreamerPlan::Bundle
    }
}

/// The tool that points the core binary at the libraries beside it.
#[derive(Debug, Clone, Copy, PartialEq, Eq, Structural)]
pub enum RpathTool {
    /// `patchelf --set-rpath $ORIGIN`.
    Patchelf,
    /// `install_name_tool -add_rpath @executable_path`.
    InstallNameTool,
    /// Nothing is done.
    NoTool,
}

/// `patchelf` on Linux, `install_name_tool` on macOS, nothing on Windows.
pub fn rpath_tool(os: HostOs) -> (r: RpathTool)
    ensures
        r == match os {
            HostOs::Linux => RpathTool::Patchelf,
            HostOs::MacOs => RpathTool::InstallNameTool,
            HostOs::Windows => RpathTool::NoTool,
        },
{
    match os {
        HostOs::Linux => RpathTool::Patchelf,
        HostOs::MacOs => RpathTool::InstallNameTool,
        HostOs::Windows => RpathTool::NoTool,
    }
}

/// The features every build of the player is made with.
pub open spec fn build_features_spec() -> Seq<Seq<char>> {
    seq!["only-gui-no-console"@, "no-default-video"@]
}

/// The features every build of the player is made with.
pub fn build_features() -> (r: Vec<&'static str>)
    ensures
        r@.len() == build_features_spec().len(),
        forall|i: int| 0 <= i < r@.len() ==> #[trigger] r@[i]@ == build_features_spec()[i],
{
    let mut v: Vec<&'static str> = Vec::new();
    v.push("only-gui-no-console");
    v.push("no-default-video");
    v
}

/// The flag that names a feature to build with.
pub open spec fn features_flag() -> Seq<char> {
    "--features"@
}

/// `--features` followed by each feature, in order.
pub open spec fn feature_args(features: Seq<Seq<char>>) -> Seq<Seq<char>>
    decreases features.len(),
{
    if features.len() == 0 {
        Seq::empty()
    } else {
        feature_args(features.drop_last()) + seq![features_flag(), features.last()]
    }
}

/// The arguments of `cargo` that build binary `bin` of `package` in the
/// `final-release` profile with the given features.
pub open spec fn cargo_build_args_spec(package: Seq<char>, bin: Seq<char>, features: Seq<Seq<char>>) -> Seq<Seq<char>> {
    seq!["build"@, "--package"@, package, "--bin"@, bin, "--profile"@, "final-release"@]
        + feature_args(features)
}

/// The views of a sequence of string slices.
pub open spec fn str_views(v: Seq<&str>) -> Seq<Seq<char>> {
    v.map_values(|s: &str| s@)
}

/// The arguments of `cargo` that build one binary of a package.
pub fn cargo_build_args<'a>(package: &'a str, bin: &'a str, features: &Vec<&'a str>) -> (r: Vec<&'a str>)
    requires
        features@.len() * 2 + 7 <= usize::MAX,
    ensures
        str_views(r@) == cargo_build_args_spec(package@, bin@, str_views(features@)),
{
    let mut args: Vec<&'a str> = Vec::new();
    args.push("build");
    args.push("--package");
    args.push(package);
    args.push("--bin");
    args.push(bin);
    args.push("--profile");
    args.push("final-release");
    let ghost head = str_views(args@);
    assert(head =~= seq!["build"@, "--package"@, package@, "--bin"@, bin@, "--profile"@, "final-release"@]);
    let mut i: usize = 0;
    while i < features.len()
        invariant
            i <= features@.len(),
            head =~= seq!["build"@, "--package"@, package@, "--bin"@, bin@, "--profile"@, "final-release"@],
            str_views(args@) =~= head + feature_args(str_views(features@.subrange(0, i as int))),
        decreases features@.len() - i,
    {
        let ghost prev = args@;
        args.push("--features");
        args.push(features[i]);
        proof {
            let fs = str_views(features@.subrange(0, i as int + 1));
            assert(fs.drop_last() =~= str_views(features@.subrange(0, i as int)));
            assert(fs.last() == features@[i as int]@);
            assert(str_views(args@) =~= str_views(prev) + seq![features_flag(), features@[i as int]@]);
        }
        i = i + 1;
    }
    assert(features@.subrange(0, features@.len() as int) =~= features@);
    args
}

impl CrateConfig {
    /// The distribution folder, as path components below the workspace
    /// root: `dist/<dist_subdir>`.
    pub fn dist_dir(&self) -> (r: Vec<&'static str>)
        ensures
            str_views(r@) == seq!["dist"@, self.dist_subdir@],
    {
        let mut v: Vec<&'static str> = Vec::new();
        v.push("dist");
        v.push(self.dist_subdir);
        assert(str_views(v@) =~= seq!["dist"@, self.dist_subdir@]);
        v
    }

    /// The `lib/` folder inside the distribution folder, as path
    /// components below the workspace root.
    pub fn lib_dir(&self) -> (r: Vec<&'static str>)
        ensures
            str_views(r@) == seq!["dist"@, self.dist_subdir@, "lib"@],
    {
        let mut v = self.dist_dir();
        let ghost prev = v@;
        v.push("lib");
        assert(str_views(v@) =~= str_views(prev).push("lib"@));
        assert(str_views(v@) =~= seq!["dist"@, self.dist_subdir@, "lib"@]);
        v
    }

    /// The archive's name on a system: the prefix, then the system's suffix.
    pub fn archive_name(&self, os: HostOs) -> (r: String)
        ensures
            r@ == self.archive_prefix@ + archive_suffix(os),
    {
        let mut name = self.archive_prefix.to_owned();
        match os {
            HostOs::Windows => name.append("-windows-x64.zip"),
            HostOs::Linux => name.append("-linux-x86_64.tar.gz"),
            HostOs::MacOs => name.append("-macos-universal.tar.gz"),
        }
        name
    }

    /// The name the core binary gets in `lib/`.
    pub fn core_dest_name(&self, os: HostOs) -> (r: String)
        ensures
            r@ == self.core_renamed@ + (if os == HostOs::Windows { ".exe"@ } else { ""@ }),
    {
        let mut name = self.core_renamed.to_owned();
        name.append(executable_suffix(os));
        name
    }

    /// The name the launcher gets in the distribution folder: the package's
    /// name.
    pub fn launcher_dest_name(&self, os: HostOs) -> (r: String)
        ensures
            r@ == self.package@ + (if os == HostOs::Windows { ".exe"@ } else { ""@ }),
    {
        let mut name = self.package.to_owned();
        name.append(executable_suffix(os));
        name
    }
}

/// The command-line name of each task.
pub open spec fn task_name(t: Task) -> Seq<char> {
    match t {
        Task::Clean => "clean"@,
        Task::Build => "build"@,
        Task::Pack => "pack"@,
        Task::Dist => "dist"@,
        Task::CheckUrls => "check-urls"@,
    }
}

/// Every task is selected by its own name and by no other task's: the name
/// `clean` selects cleaning, `build` building, `pack` packing, `dist`
/// building and packing, `check-urls` the URL check.
pub proof fn lemma_each_name_selects_its_task(t: Task)
    ensures
        task_named(task_name(t)) == Some(t),
{
    reveal_strlit("clean");
    reveal_strlit("build");
    reveal_strlit("pack");
    reveal_strlit("dist");
    reveal_strlit("check-urls");
    assert("clean"@ != "build"@) by {
        assert("clean"@[0] != "build"@[0]);
    }
    assert("clean"@ != "pack"@) by {
        assert("clean"@[0] != "pack"@[0]);
    }
    assert("clean"@ != "dist"@) by {
        assert("clean"@[0] != "dist"@[0]);
    }
    assert("clean"@ != "check-urls"@) by {
        assert("clean"@[1] != "check-urls"@[1]);
    }
    assert("build"@ != "pack"@) by {
        assert("build"@[0] != "pack"@[0]);
    }
    assert("build"@ != "dist"@) by {
        assert("build"@[0] != "dist"@[0]);
    }
    assert("build"@ != "check-urls"@) by {
        assert("build"@[0] != "check-urls"@[0]);
    }
    assert("pack"@ != "dist"@) by {
        assert("pack"@[0] != "dist"@[0]);
    }
    assert("pack"@ != "check-urls"@) by {
        assert("pack"@[0] != "check-urls"@[0]);
    }
    assert("dist"@ != "check-urls"@) by {
        assert("dist"@[0] != "check-urls"@[0]);
    }
}

proof fn lemma_feature_args_len(features: Seq<Seq<char>>)
    ensures
        feature_args(features).len() == 2 * features.len(),
    decreases features.len(),
{
    if features.len() > 0 {
        lemma_feature_args_len(features.drop_last());
    }
}

proof fn lemma_feature_args_at(features: Seq<Seq<char>>, k: int)
    requires
        0 <= k < features.len(),
    ensures
        feature_args(features)[2 * k] == features_flag(),
        feature_args(features)[2 * k + 1] == features[k],
    decreases features.len(),
{
    let p = features.drop_last();
    lemma_feature_args_len(p);
    let fa = feature_args(p);
    let tail = seq![features_flag(), features.last()];
    assert(feature_args(features) == fa + tail);
    if k < p.len() {
        lemma_feature_args_at(p, k);
        assert(p[k] == features[k]);
        assert((fa + tail)[2 * k] == fa[2 * k]);
        assert((fa + tail)[2 * k + 1] == fa[2 * k + 1]);
    } else {
        assert((fa + tail)[2 * k] == tail[0]);
        assert((fa + tail)[2 * k + 1] == tail[1]);
    }
}

/// The cargo command line that builds a binary: `build --package <package>
/// --bin <bin> --profile final-release`, then `--features <f>` for each
/// feature in order; every build of the player uses the features
/// `only-gui-no-console` and `no-default-video`.
pub proof fn lemma_cargo_build_args_layout(package: Seq<char>, bin: Seq<char>, features: Seq<Seq<char>>)
    ensures
        cargo_build_args_spec(package, bin, features).len() == 7 + 2 * features.len(),
        features_flag() == "--features"@,
        cargo_build_args_spec(package, bin, features)[0] == "build"@,
        cargo_build_args_spec(package, bin, features)[1] == "--package"@,
        cargo_build_args_spec(package, bin, features)[2] == package,
        cargo_build_args_spec(package, bin, features)[3] == "--bin"@,
        cargo_build_args_spec(package, bin, features)[4] == bin,
        cargo_build_args_spec(package, bin, features)[5] == "--profile"@,
        cargo_build_args_spec(package, bin, features)[6] == "final-release"@,
        forall|k: int|
            0 <= k < features.len() ==> #[trigger] feature_pair_at(cargo_build_args_spec(package, bin, features), k)
                == seq![features_flag(), features[k]],
        build_features_spec() == seq!["only-gui-no-console"@, "no-default-video"@],
{
    reveal_strlit("--features");
    lemma_feature_args_len(features);
    let head = seq!["build"@, "--package"@, package, "--bin"@, bin, "--profile"@, "final-release"@];
    let fa = feature_args(features);
    let args = cargo_build_args_spec(package, bin, features);
    assert(args == head + fa);
    assert forall|k: int| 0 <= k < features.len() implies #[trigger] feature_pair_at(args, k) == seq![
        features_flag(),
        features[k],
    ] by {
        lemma_feature_args_at(features, k);
        assert(args[7 + 2 * k] == fa[2 * k]);
        assert(args[8 + 2 * k] == fa[2 * k + 1]);
        assert(feature_pair_at(args, k) =~= seq![features_flag(), features[k]]);
    }
}

/// The two arguments that name the `k`-th feature of a cargo build command.
pub open spec fn feature_pair_at(args: Seq<Seq<char>>, k: int) -> Seq<Seq<char>> {
    args.subrange(7 + 2 * k, 9 + 2 * k)
}

/// Only Windows gets a ZIP archive, and its name says so; the other systems
/// get gzipped tarballs named `.tar.gz`. Each name carries its system.
pub proof fn lemma_archive_suffix_matches_format(os: HostOs)
    ensures
        os == HostOs::Windows ==> archive_suffix(os) == "-windows-x64"@ + ".zip"@,
        os == HostOs::Linux ==> archive_suffix(os) == "-linux-x86_64"@ + ".tar.gz"@,
        os == HostOs::MacOs ==> archive_suffix(os) == "-macos-universal"@ + ".tar.gz"@,
{
    reveal_strlit("-windows-x64.zip");
    reveal_strlit("-windows-x64");
    reveal_strlit(".zip");
    reveal_strlit("-linux-x86_64.tar.gz");
    reveal_strlit("-linux-x86_64");
    reveal_strlit(".tar.gz");
    reveal_strlit("-macos-universal.tar.gz");
    reveal_strlit("-macos-universal");
    assert("-windows-x64.zip"@ =~= "-windows-x64"@ + ".zip"@);
    assert("-linux-x86_64.tar.gz"@ =~= "-linux-x86_64"@ + ".tar.gz"@);
    assert("-macos-universal.tar.gz"@ =~= "-macos-universal"@ + ".tar.gz"@);
}

/// The player's packaging settings: package, core binary and folders are
/// all `hfm-player`; the core is renamed to `hfm-player-core` and started by
/// the `launcher` binary; GStreamer, OpenVINO and the models are all
/// bundled.
pub proof fn lemma_player_config(c: CrateConfig)
    requires
        player_config_spec(c),
    ensures
        c.package@ == "hfm-player"@,
        c.core_bin@ == "hfm-player"@,
        c.core_renamed@ == "hfm-player-core"@,
        c.launcher_bin@ == "launcher"@,
        c.dist_subdir@ == "hfm-player"@,
        c.archive_prefix@ == "hfm-player"@,
        c.needs_gstreamer && c.needs_openvino && c.needs_models,
{
}

} // verus!
