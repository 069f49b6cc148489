//! Apple platforms as Mach-O build version load commands name them, and what
//! the runner derives from a platform.
use vstd::prelude::*;

use crate::version::{unpack, OSVersion};

verus! {

/// A Mach-O platform identifier (`PLATFORM_*` in `<mach-o/loader.h>`).
#[derive(Debug, Clone, Copy, PartialEq, Eq, Structural, Hash)]
pub struct Platform(pub u32);

/// `LC_VERSION_MIN_MACOSX`.
pub const LC_VERSION_MIN_MACOSX: u32 = 0x24;

/// `LC_VERSION_MIN_IPHONEOS`.
pub const LC_VERSION_MIN_IPHONEOS: u32 = 0x25;

/// `LC_VERSION_MIN_TVOS`.
pub const LC_VERSION_MIN_TVOS: u32 = 0x2F;

/// `LC_VERSION_MIN_WATCHOS`.
pub const LC_VERSION_MIN_WATCHOS: u32 = 0x30;

/// `CPU_TYPE_X86` (also `CPU_TYPE_I386`).
pub const CPU_TYPE_X86: u32 = 7;

/// `CPU_TYPE_X86_64`.
pub const CPU_TYPE_X86_64: u32 = 0x0100_0007;

/// `CPU_TYPE_ARM64`.
pub const CPU_TYPE_ARM64: u32 = 0x0100_000C;

/// `PLATFORM_UNKNOWN`.
pub const PLATFORM_UNKNOWN: u32 = 0;

/// `PLATFORM_MACOS`.
pub const PLATFORM_MACOS: u32 = 1;

/// `PLATFORM_IOS`.
pub const PLATFORM_IOS: u32 = 2;

/// `PLATFORM_TVOS`.
pub const PLATFORM_TVOS: u32 = 3;

/// `PLATFORM_WATCHOS`.
pub const PLATFORM_WATCHOS: u32 = 4;

/// `PLATFORM_BRIDGEOS`.
pub const PLATFORM_BRIDGEOS: u32 = 5;

/// `PLATFORM_MACCATALYST`.
pub const PLATFORM_MACCATALYST: u32 = 6;

/// `PLATFORM_IOSSIMULATOR`.
pub const PLATFORM_IOSSIMULATOR: u32 = 7;

/// `PLATFORM_TVOSSIMULATOR`.
pub const PLATFORM_TVOSSIMULATOR: u32 = 8;

/// `PLATFORM_WATCHOSSIMULATOR`.
pub const PLATFORM_WATCHOSSIMULATOR: u32 = 9;

/// `PLATFORM_DRIVERKIT`.
pub const PLATFORM_DRIVERKIT: u32 = 10;

/// `PLATFORM_VISIONOS`.
pub const PLATFORM_VISIONOS: u32 = 11;

/// `PLATFORM_VISIONOSSIMULATOR`.
pub const PLATFORM_VISIONOSSIMULATOR: u32 = 12;


impl Platform {
    /// The simulator platforms: iOS, tvOS, watchOS and visionOS simulator.
    pub open spec fn spec_is_simulator(self) -> bool {
        self.0 == 7 || self.0 == 8 || self.0 == 9 || self.0 == 12
    }

    /// Whether this is one of the simulator platforms.
    pub fn is_simulator(self) -> (res: bool)
        ensures
            res == self.spec_is_simulator(),
    {
        self.0 == 7 || self.0 == 8 || self.0 == 9 || self.0 == 12
    }
}

impl Default for Platform {
    fn default() -> (p: Platform)
        ensures
            p == Platform(PLATFORM_UNKNOWN),
    {
        Platform(0)
    }
}

/// The SDK name (`CFBundleSupportedPlatforms`) of a platform.
pub open spec fn spec_sdk_name(p: Platform) -> Seq<char> {
    if p.0 == 1 || p.0 == 6 {
        "MacOSX"@
    } else if p.0 == 2 {
        "iPhoneOS"@
    } else if p.0 == 7 {
        "iPhoneSimulator"@
    } else if p.0 == 3 {
        "AppleTVOS"@
    } else if p.0 == 8 {
        "AppleTVSimulator"@
    } else if p.0 == 4 {
        "WatchOS"@
    } else if p.0 == 9 {
        "WatchSimulator"@
    } else if p.0 == 11 {
        "XROS"@
    } else if p.0 == 12 {
        "XRSimulator"@
    } else if p.0 == 10 {
        "DriverKit"@
    } else {
        "Unknown"@
    }
}

/// The SDK / platform name for a given platform, `"Unknown"` for a platform
/// that has none.
pub fn sdk_name(platform: Platform) -> (res: &'static str)
    ensures
        res@ == spec_sdk_name(platform),
{
    let p = platform.0;
    if p == 1 || p == 6 {
        "MacOSX"
    } else if p == 2 {
        "iPhoneOS"
    } else if p == 7 {
        "iPhoneSimulator"
    } else if p == 3 {
        "AppleTVOS"
    } else if p == 8 {
        "AppleTVSimulator"
    } else if p == 4 {
        "WatchOS"
    } else if p == 9 {
        "WatchSimulator"
    } else if p == 11 {
        "XROS"
    } else if p == 12 {
        "XRSimulator"
    } else if p == 10 {
        "DriverKit"
    } else {
        "Unknown"
    }
}

/// The `UIDeviceFamily` values of a platform (1 iPhone, 2 iPad, 3 Apple TV,
/// 4 Apple Watch, 7 Apple Vision).
pub open spec fn spec_device_families(p: Platform) -> Seq<u32> {
    if p.0 == 2 || p.0 == 7 {
        seq![1u32, 2u32]
    } else if p.0 == 3 || p.0 == 8 {
        seq![3u32]
    } else if p.0 == 4 || p.0 == 9 {
        seq![4u32]
    } else if p.0 == 11 || p.0 == 12 {
        seq![7u32]
    } else {
        Seq::empty()
    }
}

/// The device families that an app for `platform` supports.
pub fn device_families(platform: Platform) -> (res: Vec<u32>)
    ensures
        res@ == spec_device_families(platform),
{
    let p = platform.0;
    let mut res: Vec<u32> = Vec::new();
    if p == 2 || p == 7 {
        res.push(1);
        res.push(2);
    } else if p == 3 || p == 8 {
        res.push(3);
    } else if p == 4 || p == 9 {
        res.push(4);
    } else if p == 11 || p == 12 {
        res.push(7);
    }
    assert(res@ =~= spec_device_families(platform));
    res
}

/// Whether a bundle for `platform` needs an `Info.plist`: all platforms but
/// macOS and the simulators.
pub open spec fn spec_needs_info_plist(p: Platform) -> bool {
    !(p.0 == 1 || p.spec_is_simulator())
}

pub fn needs_info_plist(platform: Platform) -> (res: bool)
    ensures
        res == spec_needs_info_plist(platform),
{
    !(platform.0 == 1 || platform.is_simulator())
}

/// The platform name that `simctl` uses for the runtimes of a simulator
/// platform.
pub open spec fn spec_simulator_platform_name(p: Platform) -> Seq<char> {
    if p.0 == 7 {
        "iOS"@
    } else if p.0 == 8 {
        "tvOS"@
    } else if p.0 == 9 {
        "watchOS"@
    } else {
        "xrOS"@
    }
}

pub fn simulator_platform_name(platform: Platform) -> (res: &'static str)
    requires
        platform.spec_is_simulator(),
    ensures
        res@ == spec_simulator_platform_name(platform),
{
    if platform.0 == 7 {
        "iOS"
    } else if platform.0 == 8 {
        "tvOS"
    } else if platform.0 == 9 {
        "watchOS"
    } else {
        "xrOS"
    }
}

/// The CPU architecture of a binary, as far as the runner tells them apart.
#[derive(Debug, Clone, Copy, PartialEq, Eq, Structural, Hash)]
pub enum Arch {
    Aarch64,
    X86_64,
    I386,
    Other,
}

/// The architecture name that `simctl` lists for its runtimes; empty for an
/// architecture that no simulator runs.
pub open spec fn spec_arch_name(arch: Arch) -> Seq<char> {
    match arch {
        Arch::Aarch64 => "arm64"@,
        Arch::X86_64 => "x86_64"@,
        Arch::I386 => "i386"@,
        Arch::Other => ""@,
    }
}

pub fn arch_name(arch: Arch) -> (res: &'static str)
    ensures
        res@ == spec_arch_name(arch),
{
    match arch {
        Arch::Aarch64 => "arm64",
        Arch::X86_64 => "x86_64",
        Arch::I386 => "i386",
        Arch::Other => "",
    }
}

/// The architecture of a Mach-O file with CPU type `cputype`, as
/// `Object::architecture` names it (`CPU_TYPE_ARM64` is AArch64,
/// `CPU_TYPE_X86_64` is x86-64, `CPU_TYPE_X86` is i386), with every other
/// architecture taken together.
pub open spec fn spec_arch_of_cputype(cputype: u32) -> Arch {
    if cputype == CPU_TYPE_ARM64 {
        Arch::Aarch64
    } else if cputype == CPU_TYPE_X86_64 {
        Arch::X86_64
    } else if cputype == CPU_TYPE_X86 {
        Arch::I386
    } else {
        Arch::Other
    }
}

pub fn arch_of_cputype(cputype: u32) -> (res: Arch)
    ensures
        res == spec_arch_of_cputype(cputype),
{
    if cputype == CPU_TYPE_ARM64 {
        Arch::Aarch64
    } else if cputype == CPU_TYPE_X86_64 {
        Arch::X86_64
    } else if cputype == CPU_TYPE_X86 {
        Arch::I386
    } else {
        Arch::Other
    }
}

/// The part of `LC_BUILD_VERSION` that the runner uses.
#[derive(Debug, Clone, Copy, PartialEq, Eq, Structural, Hash)]
pub struct BuildVersion {
    pub platform: Platform,
    pub minos: OSVersion,
    pub sdk: OSVersion,
}

impl Default for BuildVersion {
    fn default() -> (v: BuildVersion)
        ensures
            v == spec_default_build_version(),
    {
        BuildVersion {
            platform: Platform(0),
            minos: OSVersion { major: 0, minor: 0, patch: 0 },
            sdk: OSVersion { major: 0, minor: 0, patch: 0 },
        }
    }
}

/// Unknown platform, versions `0.0`.
pub open spec fn spec_default_build_version() -> BuildVersion {
    BuildVersion { platform: Platform(0), minos: unpack(0), sdk: unpack(0) }
}

/// A load command, with the fields that the runner reads.
#[derive(Debug)]
pub enum LoadCommandKind {
    /// `LC_BUILD_VERSION`.
    BuildVersion { platform: u32, minos: u32, sdk: u32 },
    /// `LC_VERSION_MIN_*`: `cmd` tells which one.
    VersionMin { cmd: u32, version: u32, sdk: u32 },
    /// `LC_ID_DYLIB`; `name` is `None` when the name could not be read.
    IdDylib { name: Option<Vec<u8>> },
    /// `LC_LOAD_DYLIB` and its relatives; `name` is `None` when the name
    /// could not be read.
    Dylib { name: Option<Vec<u8>> },
    /// Any other load command.
    Other,
}

pub open spec fn is_version_min_cmd(cmd: u32) -> bool {
    cmd == 0x24 || cmd == 0x25 || cmd == 0x2F || cmd == 0x30
}

pub open spec fn is_x86(cputype: u32) -> bool {
    cputype == 0x0100_0007 || cputype == 7
}

/// The platform of an `LC_VERSION_MIN_*` command. Old simulator binaries
/// carry the device command, and are told apart by their Intel CPU type
/// (for tvOS only 64-bit Intel, as the loader does).
pub open spec fn version_min_platform(cmd: u32, cputype: u32) -> Platform {
    if cmd == 0x24 {
        Platform(1)
    } else if cmd == 0x25 {
        if is_x86(cputype) {
            Platform(7)
        } else {
            Platform(2)
        }
    } else if cmd == 0x2F {
        if cputype == 0x0100_0007 {
            Platform(8)
        } else {
            Platform(3)
        }
    } else if is_x86(cputype) {
        Platform(9)
    } else {
        Platform(4)
    }
}

/// The build version that a load command states, if it states one.
pub open spec fn spec_build_version_of(kind: LoadCommandKind, cputype: u32) -> Option<
    BuildVersion,
> {
    match kind {
        LoadCommandKind::BuildVersion { platform, minos, sdk } => Some(
            BuildVersion { platform: Platform(platform), minos: unpack(minos), sdk: unpack(sdk) },
        ),
        LoadCommandKind::VersionMin { cmd, version, sdk } => Some(
            BuildVersion {
                platform: version_min_platform(cmd, cputype),
                minos: unpack(version),
                sdk: unpack(sdk),
            },
        ),
        _ => None,
    }
}

pub open spec fn well_formed_kind(kind: LoadCommandKind) -> bool {
    kind matches LoadCommandKind::VersionMin { cmd, .. } ==> is_version_min_cmd(cmd)
}

impl BuildVersion {
    /// The build version of an `LC_BUILD_VERSION` or `LC_VERSION_MIN_*` load
    /// command, checked as the loader checks it.
    pub fn from_load_command(kind: &LoadCommandKind, cputype: u32) -> (res: Option<BuildVersion>)
        requires
            well_formed_kind(*kind),
        ensures
            res == spec_build_version_of(*kind, cputype),
    {
        match kind {
            LoadCommandKind::BuildVersion { platform, minos, sdk } => Some(
                BuildVersion {
                    platform: Platform(*platform),
                    minos: OSVersion::from_packed(*minos),
                    sdk: OSVersion::from_packed(*sdk),
                },
            ),
            LoadCommandKind::VersionMin { cmd, version, sdk } => {
                let cmd = *cmd;
                let x86 = cputype == CPU_TYPE_X86_64 || cputype == CPU_TYPE_X86;
                let platform = if cmd == LC_VERSION_MIN_MACOSX {
                    Platform(PLATFORM_MACOS)
                } else if cmd == LC_VERSION_MIN_IPHONEOS {
                    if x86 {
                        Platform(PLATFORM_IOSSIMULATOR)
                    } else {
                        Platform(PLATFORM_IOS)
                    }
                } else if cmd == LC_VERSION_MIN_TVOS {
                    if cputype == CPU_TYPE_X86_64 {
                        Platform(PLATFORM_TVOSSIMULATOR)
                    } else {
                        Platform(PLATFORM_TVOS)
                    }
                } else if x86 {
                    Platform(PLATFORM_WATCHOSSIMULATOR)
                } else {
                    Platform(PLATFORM_WATCHOS)
                };
                Some(
                    BuildVersion {
                        platform,
                        minos: OSVersion::from_packed(*version),
                        sdk: OSVersion::from_packed(*sdk),
                    },
                )
            },
            _ => None,
        }
    }
}

/// A platform is a simulator platform exactly when its SDK name ends in
/// `Simulator`.
pub proof fn lemma_simulator_sdk_name(p: Platform)
    ensures
        p.spec_is_simulator() <==> crate::text::ends_with(spec_sdk_name(p), "Simulator"@),
{
    reveal_strlit("Simulator");
    reveal_strlit("MacOSX");
    reveal_strlit("iPhoneOS");
    reveal_strlit("iPhoneSimulator");
    reveal_strlit("AppleTVOS");
    reveal_strlit("AppleTVSimulator");
    reveal_strlit("WatchOS");
    reveal_strlit("WatchSimulator");
    reveal_strlit("XROS");
    reveal_strlit("XRSimulator");
    reveal_strlit("DriverKit");
    reveal_strlit("Unknown");
    let s = spec_sdk_name(p);
    let suffix = "Simulator"@;
    if p.spec_is_simulator() {
        assert(s.skip(s.len() - suffix.len()) =~= suffix);
    } else if s.len() >= suffix.len() {
        assert(s.skip(s.len() - suffix.len())[0] != suffix[0]);
    }
}

/// A simulator runs the apps of its device platform: both have the same
/// device families, and a bundle for either of them needs no more
/// `Info.plist` than the simulator one for the simulators.
pub proof fn lemma_simulator_families(device: Platform, simulator: Platform)
    requires
        (device.0 == 2 && simulator.0 == 7) || (device.0 == 3 && simulator.0 == 8) || (device.0
            == 4 && simulator.0 == 9) || (device.0 == 11 && simulator.0 == 12),
    ensures
        spec_device_families(device) == spec_device_families(simulator),
        simulator.spec_is_simulator(),
        !device.spec_is_simulator(),
        !spec_needs_info_plist(simulator),
        spec_needs_info_plist(device),
{
}

} // verus!
