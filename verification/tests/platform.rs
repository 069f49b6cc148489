use cargo_apple_runner::platform::{
    arch_name, arch_of_cputype, device_families, needs_info_plist, sdk_name, simulator_platform_name,
    LoadCommandKind, CPU_TYPE_X86, CPU_TYPE_X86_64, LC_VERSION_MIN_IPHONEOS,
    LC_VERSION_MIN_MACOSX, LC_VERSION_MIN_TVOS, LC_VERSION_MIN_WATCHOS, PLATFORM_IOS,
    PLATFORM_IOSSIMULATOR, PLATFORM_MACCATALYST, PLATFORM_MACOS, PLATFORM_TVOS,
    PLATFORM_TVOSSIMULATOR, PLATFORM_VISIONOS, PLATFORM_VISIONOSSIMULATOR, PLATFORM_WATCHOS,
    PLATFORM_WATCHOSSIMULATOR, PLATFORM_DRIVERKIT, PLATFORM_BRIDGEOS,
};
use cargo_apple_runner::{Arch, BuildVersion, OSVersion, Platform};

const CPU_TYPE_ARM64: u32 = 0x0100_000C;

#[test]
fn simulators() {
    for p in [
        PLATFORM_IOSSIMULATOR,
        PLATFORM_TVOSSIMULATOR,
        PLATFORM_WATCHOSSIMULATOR,
        PLATFORM_VISIONOSSIMULATOR,
    ] {
        assert!(Platform(p).is_simulator());
        assert!(!needs_info_plist(Platform(p)));
        assert!(sdk_name(Platform(p)).ends_with("Simulator"));
    }
    for p in [0, PLATFORM_MACOS, PLATFORM_IOS, PLATFORM_TVOS, PLATFORM_WATCHOS, PLATFORM_BRIDGEOS,
        PLATFORM_MACCATALYST, PLATFORM_DRIVERKIT, PLATFORM_VISIONOS, 13, 0xFFFF_FFFF]
    {
        assert!(!Platform(p).is_simulator());
        assert!(!sdk_name(Platform(p)).ends_with("Simulator"));
    }
}

#[test]
fn sdk_names() {
    assert_eq!(sdk_name(Platform(PLATFORM_MACOS)), "MacOSX");
    assert_eq!(sdk_name(Platform(PLATFORM_MACCATALYST)), "MacOSX");
    assert_eq!(sdk_name(Platform(PLATFORM_IOS)), "iPhoneOS");
    assert_eq!(sdk_name(Platform(PLATFORM_IOSSIMULATOR)), "iPhoneSimulator");
    assert_eq!(sdk_name(Platform(PLATFORM_TVOS)), "AppleTVOS");
    assert_eq!(sdk_name(Platform(PLATFORM_TVOSSIMULATOR)), "AppleTVSimulator");
    assert_eq!(sdk_name(Platform(PLATFORM_WATCHOS)), "WatchOS");
    assert_eq!(sdk_name(Platform(PLATFORM_WATCHOSSIMULATOR)), "WatchSimulator");
    assert_eq!(sdk_name(Platform(PLATFORM_VISIONOS)), "XROS");
    assert_eq!(sdk_name(Platform(PLATFORM_VISIONOSSIMULATOR)), "XRSimulator");
    assert_eq!(sdk_name(Platform(PLATFORM_DRIVERKIT)), "DriverKit");
    assert_eq!(sdk_name(Platform(PLATFORM_BRIDGEOS)), "Unknown");
}

#[test]
fn families() {
    assert_eq!(device_families(Platform(PLATFORM_IOS)), vec![1, 2]);
    assert_eq!(device_families(Platform(PLATFORM_IOSSIMULATOR)), vec![1, 2]);
    assert_eq!(device_families(Platform(PLATFORM_TVOSSIMULATOR)), vec![3]);
    assert_eq!(device_families(Platform(PLATFORM_WATCHOS)), vec![4]);
    assert_eq!(device_families(Platform(PLATFORM_VISIONOSSIMULATOR)), vec![7]);
    assert_eq!(device_families(Platform(PLATFORM_MACOS)), Vec::<u32>::new());
    assert_eq!(device_families(Platform(PLATFORM_MACCATALYST)), Vec::<u32>::new());
}

#[test]
fn info_plist_needed_on_devices_and_catalyst() {
    assert!(!needs_info_plist(Platform(PLATFORM_MACOS)));
    assert!(needs_info_plist(Platform(PLATFORM_IOS)));
    assert!(needs_info_plist(Platform(PLATFORM_MACCATALYST)));
    assert!(needs_info_plist(Platform(PLATFORM_VISIONOS)));
}

#[test]
fn simulator_names_and_archs() {
    assert_eq!(simulator_platform_name(Platform(PLATFORM_IOSSIMULATOR)), "iOS");
    assert_eq!(simulator_platform_name(Platform(PLATFORM_TVOSSIMULATOR)), "tvOS");
    assert_eq!(simulator_platform_name(Platform(PLATFORM_WATCHOSSIMULATOR)), "watchOS");
    assert_eq!(simulator_platform_name(Platform(PLATFORM_VISIONOSSIMULATOR)), "xrOS");
    assert_eq!(arch_name(Arch::Aarch64), "arm64");
    assert_eq!(arch_name(Arch::X86_64), "x86_64");
    assert_eq!(arch_name(Arch::I386), "i386");
    assert_eq!(arch_name(Arch::Other), "");
}

fn version_min(cmd: u32, cputype: u32) -> Platform {
    let kind = LoadCommandKind::VersionMin { cmd, version: 0x000A_0000, sdk: 0x000B_0000 };
    BuildVersion::from_load_command(&kind, cputype).unwrap().platform
}

#[test]
fn build_version_command() {
    let kind = LoadCommandKind::BuildVersion {
        platform: PLATFORM_IOSSIMULATOR,
        minos: 0x000E_0000,
        sdk: 0x0011_0200,
    };
    let v = BuildVersion::from_load_command(&kind, CPU_TYPE_ARM64).unwrap();
    assert_eq!(v.platform, Platform(PLATFORM_IOSSIMULATOR));
    assert_eq!(v.minos, OSVersion { major: 14, minor: 0, patch: 0 });
    assert_eq!(v.sdk, OSVersion { major: 17, minor: 2, patch: 0 });
}

#[test]
fn version_min_commands() {
    assert_eq!(version_min(LC_VERSION_MIN_MACOSX, CPU_TYPE_X86_64), Platform(PLATFORM_MACOS));
    assert_eq!(version_min(LC_VERSION_MIN_IPHONEOS, CPU_TYPE_ARM64), Platform(PLATFORM_IOS));
    assert_eq!(version_min(LC_VERSION_MIN_IPHONEOS, CPU_TYPE_X86_64), Platform(PLATFORM_IOSSIMULATOR));
    assert_eq!(version_min(LC_VERSION_MIN_IPHONEOS, CPU_TYPE_X86), Platform(PLATFORM_IOSSIMULATOR));
    assert_eq!(version_min(LC_VERSION_MIN_TVOS, CPU_TYPE_X86_64), Platform(PLATFORM_TVOSSIMULATOR));
    assert_eq!(version_min(LC_VERSION_MIN_TVOS, CPU_TYPE_X86), Platform(PLATFORM_TVOS));
    assert_eq!(version_min(LC_VERSION_MIN_WATCHOS, CPU_TYPE_X86), Platform(PLATFORM_WATCHOSSIMULATOR));
    assert_eq!(version_min(LC_VERSION_MIN_WATCHOS, CPU_TYPE_ARM64), Platform(PLATFORM_WATCHOS));
    let kind = LoadCommandKind::VersionMin { cmd: LC_VERSION_MIN_MACOSX, version: 0x000A_0C00, sdk: 0 };
    let v = BuildVersion::from_load_command(&kind, CPU_TYPE_X86_64).unwrap();
    assert_eq!(v.minos, OSVersion { major: 10, minor: 12, patch: 0 });
}

#[test]
fn other_commands_state_no_version() {
    assert!(BuildVersion::from_load_command(&LoadCommandKind::Other, CPU_TYPE_ARM64).is_none());
    let kind = LoadCommandKind::Dylib { name: Some(b"/usr/lib/libSystem.B.dylib".to_vec()) };
    assert!(BuildVersion::from_load_command(&kind, CPU_TYPE_ARM64).is_none());
}

#[test]
fn architectures_from_cpu_type() {
    assert_eq!(arch_of_cputype(CPU_TYPE_ARM64), Arch::Aarch64);
    assert_eq!(arch_of_cputype(CPU_TYPE_X86_64), Arch::X86_64);
    assert_eq!(arch_of_cputype(CPU_TYPE_X86), Arch::I386);
    assert_eq!(arch_of_cputype(12), Arch::Other);
    assert_eq!(arch_of_cputype(0x0200_000C), Arch::Other);
    assert_eq!(arch_name(arch_of_cputype(CPU_TYPE_ARM64)), "arm64");
}
