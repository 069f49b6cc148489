use cargo_apple_runner::bundle::{
    bundle_identifier, bundle_layout, default_info_plist, executable_dir, file_name,
    info_plist_contents, info_plist_path, InfoPlistError,
};
use cargo_apple_runner::platform::{PLATFORM_IOSSIMULATOR, PLATFORM_MACOS, PLATFORM_VISIONOS};
use cargo_apple_runner::{Arch, Binary, BuildVersion, CargoEnv, OSVersion, Platform};

fn binary(path: &str, platform: u32, name: Option<&[u8]>) -> Binary {
    Binary {
        path: path.to_string(),
        arch: Arch::Aarch64,
        name: name.map(|n| n.to_vec()),
        versions: vec![BuildVersion {
            platform: Platform(platform),
            minos: OSVersion { major: 14, minor: 0, patch: 0 },
            sdk: OSVersion { major: 17, minor: 2, patch: 0 },
        }],
        info_plist_data: None,
        entitlements_data: None,
        signed: false,
        gui_like: true,
    }
}

fn env() -> CargoEnv {
    CargoEnv::from_values(Some("my-app".to_string()), None, Some("0.3.1".to_string()))
}

#[test]
fn file_names() {
    assert_eq!(file_name("/usr/bin/").as_deref(), Some("bin"));
    assert_eq!(file_name("tmp/foo.txt").as_deref(), Some("foo.txt"));
    assert_eq!(file_name("foo.txt/.").as_deref(), Some("foo.txt"));
    assert_eq!(file_name("foo.txt/.//").as_deref(), Some("foo.txt"));
    assert_eq!(file_name("target/debug/deps/app-1234").as_deref(), Some("app-1234"));
    assert_eq!(file_name("foo.txt/.."), None);
    assert_eq!(file_name("/"), None);
    assert_eq!(file_name(""), None);
    assert_eq!(file_name("."), None);
    assert_eq!(file_name("./"), None);
    for p in ["/usr/bin/", "a//b", "x/./y/.", "..", "a/b/../c", "é/ü"] {
        let expected = std::path::Path::new(p).file_name().map(|n| n.to_str().unwrap().to_string());
        assert_eq!(file_name(p), expected, "{p}");
    }
}

#[test]
fn layout() {
    assert_eq!(executable_dir(Platform(PLATFORM_MACOS)), vec!["Contents", "MacOS"]);
    assert_eq!(executable_dir(Platform(PLATFORM_IOSSIMULATOR)), Vec::<&str>::new());
    assert_eq!(info_plist_path(Platform(PLATFORM_MACOS)), vec!["Contents", "Info.plist"]);
    assert_eq!(info_plist_path(Platform(PLATFORM_VISIONOS)), vec!["Info.plist"]);
}

#[test]
fn bundle_paths() {
    let cases = [
        ("target/debug/app-1234", "target/debug/app-1234.app"),
        ("/t/foo/", "/t/foo.app"),
        ("/t/foo//", "/t/foo.app"),
        ("/t/foo/.", "/t/foo.app"),
        ("/t/app.bin", "/t/app.bin.app"),
    ];
    for (path, bundle) in cases {
        let layout = bundle_layout(&binary(path, PLATFORM_MACOS, None)).unwrap();
        assert_eq!(layout.bundle_path, bundle, "{path}");
        assert_eq!(layout.executable_dir, vec!["Contents", "MacOS"]);
        assert_eq!(layout.info_plist_path, vec!["Contents", "Info.plist"]);
    }
    let layout = bundle_layout(&binary("/t/foo/", PLATFORM_IOSSIMULATOR, None)).unwrap();
    assert_eq!(layout.executable_name, "foo");
    assert_eq!(layout.executable_dir, Vec::<&str>::new());
    let mut cli = binary("/t/tool", PLATFORM_MACOS, None);
    cli.gui_like = false;
    assert!(bundle_layout(&cli).is_none());
}

const MACOS_PLIST: &str = r#"<?xml version="1.0" encoding="UTF-8"?>
<!DOCTYPE plist PUBLIC "-//Apple Computer//DTD PLIST 1.0//EN" "http://www.apple.com/DTDs/PropertyList-1.0.dtd">
<plist version="1.0">
<dict>
  <key>CFBundleDevelopmentRegion</key>
  <string>en</string>
  <key>CFBundleName</key>
  <string>app-1234</string>
  <key>CFBundleDisplayName</key>
  <string>app-1234</string>
  <key>CFBundleIdentifier</key>
  <string>my-app.app-1234</string>
  <key>CFBundleVersion</key>
  <string>1.0</string>
  <key>CFBundleShortVersionString</key>
  <string>0.3.1</string>
  <key>CFBundlePackageType</key>
  <string>APPL</string>
  <key>CFBundleExecutable</key>
  <string>app-1234</string>
  <key>LSMinimumSystemVersion</key>
  <string>14.0</string>
  <key>CFBundleInfoDictionaryVersion</key>
  <string>6.0</string>
</dict>
</plist>
"#;

const IOS_PLIST: &str = r#"<?xml version="1.0" encoding="UTF-8"?>
<!DOCTYPE plist PUBLIC "-//Apple Computer//DTD PLIST 1.0//EN" "http://www.apple.com/DTDs/PropertyList-1.0.dtd">
<plist version="1.0">
<dict>
  <key>CFBundleDevelopmentRegion</key>
  <string>en</string>
  <key>CFBundleName</key>
  <string>app</string>
  <key>CFBundleDisplayName</key>
  <string>Fancy App</string>
  <key>CFBundleIdentifier</key>
  <string>my-app.app</string>
  <key>CFBundleVersion</key>
  <string>1.0</string>
  <key>CFBundleShortVersionString</key>
  <string>0.3.1</string>
  <key>CFBundlePackageType</key>
  <string>APPL</string>
  <key>CFBundleExecutable</key>
  <string>app</string>
  <key>MinimumOSVersion</key>
  <string>14.0</string>
  <key>CFBundleInfoDictionaryVersion</key>
  <string>6.0</string>
  <key>LSRequiresIPhoneOS</key>
  <true/>
  <key>CFBundleSupportedPlatforms</key>
  <array>
    <string>iPhoneSimulator</string>
  </array>
  <key>UIDeviceFamily</key>
  <array>
    <integer>1</integer>
    <integer>2</integer>
  </array>
</dict>
</plist>
"#;

#[test]
fn default_plist_for_macos() {
    let b = binary("/target/debug/deps/app-1234", PLATFORM_MACOS, None);
    assert_eq!(default_info_plist(&b, &env()), MACOS_PLIST);
}

#[test]
fn default_plist_for_ios_simulator() {
    let b = binary("/target/app", PLATFORM_IOSSIMULATOR, Some(b"Fancy App"));
    assert_eq!(default_info_plist(&b, &env()), IOS_PLIST);
}

#[test]
fn display_name_is_decoded_lossily() {
    let b = binary("/target/app", PLATFORM_MACOS, Some(b"Caf\xc3\xa9 \xff"));
    let text = default_info_plist(&b, &env());
    assert!(text.contains("<key>CFBundleDisplayName</key>\n  <string>Caf\u{e9} \u{fffd}</string>"));
}

#[test]
fn default_plist_has_identifier() {
    let b = binary("/target/debug/deps/app-1234", PLATFORM_MACOS, None);
    let contents = info_plist_contents(&b, &env());
    assert_eq!(contents, MACOS_PLIST.as_bytes());
    assert_eq!(bundle_identifier(&contents).unwrap().as_deref(), Some("my-app.app-1234"));
    let b = binary("/target/app", PLATFORM_IOSSIMULATOR, None);
    let contents = info_plist_contents(&b, &env());
    assert_eq!(bundle_identifier(&contents).unwrap().as_deref(), Some("my-app.app"));
}

#[test]
fn embedded_plist_wins() {
    let mut b = binary("/target/app", PLATFORM_MACOS, None);
    let embedded = br#"<?xml version="1.0" encoding="UTF-8"?>
<plist version="1.0"><dict><key>CFBundleIdentifier</key><string>com.example.embedded</string></dict></plist>"#;
    b.info_plist_data = Some(embedded.to_vec());
    let contents = info_plist_contents(&b, &env());
    assert_eq!(contents, embedded.to_vec());
    assert_eq!(bundle_identifier(&contents).unwrap().as_deref(), Some("com.example.embedded"));
}

#[test]
fn identifier_errors() {
    assert!(matches!(bundle_identifier(b"not a plist"), Err(InfoPlistError::Invalid(_))));
    let array = br#"<?xml version="1.0" encoding="UTF-8"?><plist version="1.0"><array><string>a</string></array></plist>"#;
    assert!(matches!(bundle_identifier(array), Err(InfoPlistError::NotDictionary)));
    let no_id = br#"<?xml version="1.0" encoding="UTF-8"?><plist version="1.0"><dict><key>CFBundleName</key><string>a</string></dict></plist>"#;
    assert_eq!(bundle_identifier(no_id).unwrap(), None);
    let not_string = br#"<?xml version="1.0" encoding="UTF-8"?><plist version="1.0"><dict><key>CFBundleIdentifier</key><integer>3</integer></dict></plist>"#;
    assert_eq!(bundle_identifier(not_string).unwrap(), None);
}
