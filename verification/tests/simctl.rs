use cargo_apple_runner::platform::{PLATFORM_IOSSIMULATOR, PLATFORM_TVOSSIMULATOR};
use cargo_apple_runner::simctl::{
    availability_from_fields, forwarded_env_name, select_device, strip_trailing_newline,
    Availability, AvailabilityError, Device, DeviceSelectionError, DeviceState, Runtime,
};
use cargo_apple_runner::{Arch, OSVersion, Platform};

fn runtime(identifier: &str, version: &str, platform: Option<&str>) -> Runtime {
    Runtime {
        buildversion: "build".to_string(),
        name: format!("Runtime {version}"),
        identifier: identifier.to_string(),
        version: version.to_string(),
        availability: Availability::Available,
        is_internal: false,
        platform: platform.map(|s| s.to_string()),
        supported_architectures: Some(vec!["arm64".to_string(), "x86_64".to_string()]),
    }
}

fn device(name: &str, udid: &str, state: DeviceState, last_booted_at: Option<&str>) -> Device {
    Device {
        name: name.to_string(),
        udid: udid.to_string(),
        state,
        availability: Availability::Available,
        last_booted_at: last_booted_at.map(|s| s.to_string()),
    }
}

const IOS_17: &str = "com.apple.CoreSimulator.SimRuntime.iOS-17-0";
const IOS_16: &str = "com.apple.CoreSimulator.SimRuntime.iOS-16-4";
const TVOS_17: &str = "com.apple.CoreSimulator.SimRuntime.tvOS-17-0";

fn ios() -> Platform {
    Platform(PLATFORM_IOSSIMULATOR)
}

fn v(major: u16, minor: u8) -> OSVersion {
    OSVersion { major, minor, patch: 0 }
}

fn udid_of(res: Result<(Runtime, Device), DeviceSelectionError>) -> String {
    res.unwrap().1.udid
}

#[test]
fn xcode_9_style_availability() {
    let available = availability_from_fields(Some("(available)".to_string()), None, None).unwrap();
    assert!(available.is_available());
    match availability_from_fields(
        Some(" (unavailable, runtime profile not found)".to_string()),
        Some(true),
        None,
    )
    .unwrap()
    {
        Availability::Unavailable(m) => assert_eq!(m, " (unavailable, runtime profile not found)"),
        Availability::Available => panic!("must be unavailable"),
    }
}

#[test]
fn xcode_26_style_availability() {
    assert!(availability_from_fields(None, Some(true), None).unwrap().is_available());
    let message = "The iOS 15.0 simulator runtime is not supported on hosts after macOS 14.99.0.";
    match availability_from_fields(None, Some(false), Some(message.to_string())).unwrap() {
        Availability::Unavailable(m) => assert_eq!(m, message),
        Availability::Available => panic!("must be unavailable"),
    }
    match availability_from_fields(None, Some(false), None).unwrap() {
        Availability::Unavailable(m) => assert_eq!(m, ""),
        Availability::Available => panic!("must be unavailable"),
    }
    assert!(matches!(
        availability_from_fields(None, None, Some("x".to_string())),
        Err(AvailabilityError::MissingField)
    ));
}

#[test]
fn platform_from_field_or_identifier() {
    let with_field = runtime(IOS_17, "17.0", Some("iOS"));
    assert!(with_field.is_platform("iOS"));
    assert!(!with_field.is_platform("visionOS"));
    assert!(!with_field.is_platform("iO"));
    let old = runtime(IOS_16, "16.4", None);
    assert!(old.is_platform("iOS"));
    assert!(old.is_platform("SimRuntime"));
    assert!(!old.is_platform("tvOS"));
    let xr = runtime("com.apple.CoreSimulator.SimRuntime.xrOS-1-0", "1.0", Some("xrOS"));
    assert!(xr.is_platform("xrOS"));
    assert!(!xr.is_platform("visionOS"));
}

#[test]
fn picks_booted_device() {
    let runtimes = vec![runtime(IOS_17, "17.0", Some("iOS")), runtime(TVOS_17, "17.0", Some("tvOS"))];
    let table = vec![
        (IOS_17.to_string(), vec![
            device("iPhone 15", "A", DeviceState::Shutdown, None),
            device("iPhone 15 Pro", "B", DeviceState::Booted, None),
        ]),
        (TVOS_17.to_string(), vec![device("Apple TV", "C", DeviceState::Booted, None)]),
    ];
    let (r, d) = select_device(runtimes, table, ios(), Arch::Aarch64, v(14, 0)).unwrap();
    assert_eq!(d.udid, "B");
    assert_eq!(r.identifier, IOS_17);
    let runtimes = vec![runtime(IOS_17, "17.0", Some("iOS")), runtime(TVOS_17, "17.0", Some("tvOS"))];
    let table = vec![
        (IOS_17.to_string(), vec![device("iPhone 15", "A", DeviceState::Booted, None)]),
        (TVOS_17.to_string(), vec![device("Apple TV", "C", DeviceState::Booted, None)]),
    ];
    let res = select_device(runtimes, table, Platform(PLATFORM_TVOSSIMULATOR), Arch::Aarch64, v(14, 0));
    assert_eq!(udid_of(res), "C");
}

#[test]
fn devices_found_under_runtime_name() {
    let runtimes = vec![runtime(IOS_16, "16.4", None)];
    let table = vec![("Runtime 16.4".to_string(), vec![device("iPhone 8", "N", DeviceState::Booted, None)])];
    assert_eq!(udid_of(select_device(runtimes, table, ios(), Arch::X86_64, v(12, 0))), "N");
}

#[test]
fn order_of_candidates() {
    // The most recently booted device wins; a booted device beats one never
    // booted.
    let runtimes = vec![runtime(IOS_17, "17.0", Some("iOS"))];
    let table = vec![(IOS_17.to_string(), vec![
        device("c", "NEVER", DeviceState::Booted, None),
        device("b", "OLDER", DeviceState::Booted, Some("2024-05-01T10:00:00Z")),
        device("a", "NEWER", DeviceState::Booted, Some("2024-05-02T10:00:00Z")),
    ])];
    assert_eq!(udid_of(select_device(runtimes, table, ios(), Arch::Aarch64, v(14, 0))), "NEWER");
    let runtimes = vec![runtime(IOS_17, "17.0", Some("iOS"))];
    let table = vec![(IOS_17.to_string(), vec![
        device("b", "OLDER", DeviceState::Booted, Some("2024-05-01T10:00:00Z")),
        device("c", "NEVER", DeviceState::Booted, None),
    ])];
    assert_eq!(udid_of(select_device(runtimes, table, ios(), Arch::Aarch64, v(14, 0))), "OLDER");
    // Then newer runtimes, then names.
    let runtimes = vec![runtime(IOS_16, "16.4", Some("iOS")), runtime(IOS_17, "17.0", Some("iOS"))];
    let table = vec![
        (IOS_16.to_string(), vec![device("z", "R16", DeviceState::Booted, None)]),
        (IOS_17.to_string(), vec![device("a", "R17", DeviceState::Booted, None)]),
    ];
    assert_eq!(udid_of(select_device(runtimes, table, ios(), Arch::Aarch64, v(14, 0))), "R17");
    let runtimes = vec![runtime(IOS_17, "17.0", Some("iOS"))];
    let table = vec![(IOS_17.to_string(), vec![
        device("iPhone a", "A", DeviceState::Booted, None),
        device("iPhone b", "B", DeviceState::Booted, None),
        device("iPhone b", "B2", DeviceState::Booted, None),
    ])];
    assert_eq!(udid_of(select_device(runtimes, table, ios(), Arch::Aarch64, v(14, 0))), "B");
}

#[test]
fn most_recently_booted_device() {
    let runtimes = vec![Runtime {
        buildversion: String::new(),
        name: "r".to_string(),
        identifier: "iOS".to_string(),
        version: "17.0".to_string(),
        availability: Availability::Available,
        is_internal: false,
        platform: None,
        supported_architectures: None,
    }];
    let table = vec![("iOS".to_string(), vec![
        device("A", "1", DeviceState::Booted, Some("2024")),
        device("B", "2", DeviceState::Booted, Some("2025")),
    ])];
    let (r, d) = select_device(runtimes, table, ios(), Arch::Aarch64, v(0, 0)).unwrap();
    assert_eq!(r.name, "r");
    assert_eq!(d.udid, "2");
    assert_eq!(d.name, "B");
}

#[test]
fn selection_errors() {
    let err = |runtimes: Vec<Runtime>, table: Vec<(String, Vec<Device>)>, arch: Arch, minos: OSVersion| {
        select_device(runtimes, table, ios(), arch, minos).unwrap_err()
    };
    assert_eq!(err(vec![], vec![], Arch::Aarch64, v(14, 0)), DeviceSelectionError::NoRuntimes);

    let mut internal = runtime(IOS_17, "17.0", Some("iOS"));
    internal.is_internal = true;
    let mut unavailable = runtime(IOS_16, "16.4", Some("iOS"));
    unavailable.availability = Availability::Unavailable("gone".to_string());
    assert_eq!(err(vec![internal, unavailable], vec![], Arch::Aarch64, v(14, 0)), DeviceSelectionError::NoAvailableRuntimes);

    assert_eq!(err(vec![runtime(TVOS_17, "17.0", Some("tvOS"))], vec![], Arch::Aarch64, v(14, 0)), DeviceSelectionError::NoPlatformRuntimes);

    let mut intel_only = runtime(IOS_17, "17.0", Some("iOS"));
    intel_only.supported_architectures = Some(vec!["x86_64".to_string()]);
    assert_eq!(err(vec![intel_only], vec![], Arch::Aarch64, v(14, 0)), DeviceSelectionError::NoArchitectureRuntimes);
    assert_eq!(err(vec![runtime(IOS_17, "17.0", Some("iOS"))], vec![], Arch::Other, v(14, 0)), DeviceSelectionError::NoArchitectureRuntimes);

    assert_eq!(err(vec![runtime(IOS_17, "17.0", Some("iOS"))], vec![], Arch::Aarch64, v(17, 1)), DeviceSelectionError::NoVersionRuntimes);

    assert_eq!(err(vec![runtime(IOS_17, "17.0", Some("iOS"))], vec![], Arch::Aarch64, v(17, 0)), DeviceSelectionError::NoDevices);

    let mut gone = device("iPhone", "X", DeviceState::Booted, None);
    gone.availability = Availability::Unavailable("deleted".to_string());
    let table = vec![(IOS_17.to_string(), vec![gone])];
    assert_eq!(err(vec![runtime(IOS_17, "17.0", Some("iOS"))], table, Arch::Aarch64, v(14, 0)), DeviceSelectionError::NoAvailableDevices);

    let table = vec![(IOS_17.to_string(), vec![device("iPhone", "X", DeviceState::Shutdown, None)])];
    assert_eq!(err(vec![runtime(IOS_17, "17.0", Some("iOS"))], table, Arch::Aarch64, v(14, 0)), DeviceSelectionError::NoBootedDevices);
}

#[test]
fn unreadable_runtime_version_is_kept() {
    let mut odd = runtime(IOS_17, "seventeen", Some("iOS"));
    odd.supported_architectures = None;
    let table = vec![(IOS_17.to_string(), vec![device("iPhone", "X", DeviceState::Booted, None)])];
    assert_eq!(udid_of(select_device(vec![odd], table, ios(), Arch::I386, v(99, 0))), "X");
}

#[test]
fn forwarded_variables() {
    assert_eq!(forwarded_env_name("CARGO_PKG_NAME").as_deref(), Some("SIMCTL_CHILD_CARGO_PKG_NAME"));
    assert_eq!(forwarded_env_name("CARGO_PKG_").as_deref(), Some("SIMCTL_CHILD_CARGO_PKG_"));
    assert_eq!(forwarded_env_name("CARGO_CRATE_NAME").as_deref(), Some("SIMCTL_CHILD_CARGO_CRATE_NAME"));
    assert_eq!(forwarded_env_name("CARGO_BIN_NAME").as_deref(), Some("SIMCTL_CHILD_CARGO_BIN_NAME"));
    assert_eq!(forwarded_env_name("CARGO_PRIMARY_PACKAGE").as_deref(), Some("SIMCTL_CHILD_CARGO_PRIMARY_PACKAGE"));
    assert_eq!(forwarded_env_name("CARGO_MANIFEST_DIR"), None);
    assert_eq!(forwarded_env_name("CARGO_PKG"), None);
    assert_eq!(forwarded_env_name("PATH"), None);
    assert_eq!(forwarded_env_name("cargo_pkg_name"), None);
}

#[test]
fn trailing_newline() {
    assert_eq!(strip_trailing_newline(b"/tmp/dir\n"), b"/tmp/dir".to_vec());
    assert_eq!(strip_trailing_newline(b"/tmp/dir"), b"/tmp/dir".to_vec());
    assert_eq!(strip_trailing_newline(b"/tmp/dir\n\n"), b"/tmp/dir\n".to_vec());
    assert_eq!(strip_trailing_newline(b""), Vec::<u8>::new());
}
