use cargo_apple_runner::cargo::CargoEnv;
use cargo_apple_runner::platform::{
    PLATFORM_DRIVERKIT, PLATFORM_IOS, PLATFORM_IOSSIMULATOR, PLATFORM_MACCATALYST,
    PLATFORM_MACOS, PLATFORM_VISIONOS, PLATFORM_VISIONOSSIMULATOR, PLATFORM_WATCHOSSIMULATOR,
};
use cargo_apple_runner::process::{other_runner_processes, ProcessEntry};
use cargo_apple_runner::runner::{
    launch_plan, signing_entitlements, signing_identity, LaunchError, LaunchPlan,
};
use cargo_apple_runner::sign::{codesign_args, CodesignArg};
use cargo_apple_runner::util::{exit_code, failure_details};
use cargo_apple_runner::Platform;

fn render(args: &[CodesignArg]) -> Vec<String> {
    args.iter()
        .map(|a| match a {
            CodesignArg::Text(t) => t.clone(),
            CodesignArg::EntitlementsPath => "<entitlements>".to_string(),
            CodesignArg::TargetPath => "<path>".to_string(),
        })
        .collect()
}

#[test]
fn codesign_for_macos_with_entitlements() {
    let args = codesign_args(Platform(PLATFORM_MACOS), "-", true);
    assert_eq!(
        render(&args),
        vec![
            "--force",
            "--sign",
            "-",
            "--entitlements",
            "<entitlements>",
            "--generate-entitlement-der",
            "--timestamp=none",
            "<path>"
        ]
    );
}

#[test]
fn codesign_for_simulator() {
    let args = codesign_args(Platform(PLATFORM_IOSSIMULATOR), "Apple Development: X", false);
    assert_eq!(render(&args), vec!["--force", "--sign", "Apple Development: X", "<path>"]);
    let args = codesign_args(Platform(PLATFORM_MACCATALYST), "-", false);
    assert_eq!(render(&args), vec!["--force", "--sign", "-", "<path>"]);
}

#[test]
fn exit_codes() {
    assert_eq!(exit_code(Some(0)), Some(0));
    assert_eq!(exit_code(Some(101)), Some(101));
    assert_eq!(exit_code(Some(255)), Some(255));
    assert_eq!(exit_code(Some(256)), None);
    assert_eq!(exit_code(Some(-1)), None);
    assert_eq!(exit_code(None), None);
}

#[test]
fn failure_report() {
    assert_eq!(failure_details("", ""), "");
    assert_eq!(failure_details("out", ""), "\nstdout: out");
    assert_eq!(failure_details("", "err"), "\nstderr: err");
    assert_eq!(failure_details("out", "err"), "\nstdout: out\nstderr: err");
}

#[test]
fn cargo_env_defaults() {
    let env = CargoEnv::from_values(None, None, None);
    assert_eq!(env.pkg_name, "unknown");
    assert_eq!(env.pkg_description, "");
    assert_eq!(env.pkg_version, "1.0");
    let env = CargoEnv::from_values(Some("a".into()), Some("b".into()), Some("2.0.0".into()));
    assert_eq!((env.pkg_name.as_str(), env.pkg_description.as_str(), env.pkg_version.as_str()), ("a", "b", "2.0.0"));
}

#[test]
fn launch_plans() {
    assert_eq!(launch_plan(Platform(PLATFORM_MACOS), true), Ok(LaunchPlan::Host));
    assert_eq!(launch_plan(Platform(PLATFORM_MACCATALYST), false), Ok(LaunchPlan::Host));
    assert_eq!(
        launch_plan(Platform(PLATFORM_IOSSIMULATOR), true),
        Ok(LaunchPlan::Simulator { launch_app: true })
    );
    assert_eq!(
        launch_plan(Platform(PLATFORM_WATCHOSSIMULATOR), false),
        Ok(LaunchPlan::Simulator { launch_app: false })
    );
    assert_eq!(
        launch_plan(Platform(PLATFORM_VISIONOSSIMULATOR), false),
        Ok(LaunchPlan::Simulator { launch_app: false })
    );
    assert_eq!(launch_plan(Platform(PLATFORM_IOS), true), Err(LaunchError::DeviceNotSupported));
    assert_eq!(launch_plan(Platform(PLATFORM_VISIONOS), true), Err(LaunchError::DeviceNotSupported));
    assert_eq!(launch_plan(Platform(PLATFORM_DRIVERKIT), true), Err(LaunchError::UnsupportedPlatform));
    assert_eq!(launch_plan(Platform(0), false), Err(LaunchError::UnsupportedPlatform));
}

#[test]
fn entitlements_and_identity() {
    let ents = Some(b"<plist/>".to_vec());
    assert_eq!(signing_entitlements(Platform(PLATFORM_IOSSIMULATOR), &ents), None);
    assert_eq!(signing_entitlements(Platform(PLATFORM_MACOS), &ents), ents);
    assert_eq!(signing_entitlements(Platform(PLATFORM_IOS), &None), None);
    assert_eq!(signing_identity(None), "-");
    assert_eq!(signing_identity(Some("Apple Development".into())), "Apple Development");
}

fn process(pid: u32, name: &str, same_executable: bool, user_id: Option<u32>) -> ProcessEntry {
    ProcessEntry { pid, name: name.as_bytes().to_vec(), same_executable, user_id }
}

#[test]
fn other_processes() {
    let runner = b"cargo-apple-runner";
    // Only ourselves.
    let ps = vec![process(10, "cargo-apple-runner", true, Some(501)), process(11, "zsh", false, Some(501))];
    assert!(!other_runner_processes(&ps, runner, 10));
    // Another runner of the same user.
    let ps = vec![process(10, "cargo-apple-runner", true, Some(501)), process(12, "cargo-apple-runner", false, Some(501))];
    assert!(other_runner_processes(&ps, runner, 10));
    // Another runner, found by its executable, of another user.
    let ps = vec![process(13, "renamed", true, Some(502)), process(10, "cargo-apple-runner", true, Some(501))];
    assert!(!other_runner_processes(&ps, runner, 10));
    // Our user is unknown: any other runner counts.
    let ps = vec![process(13, "renamed", true, Some(502)), process(10, "cargo-apple-runner", true, None)];
    assert!(other_runner_processes(&ps, runner, 10));
    // We are not in the list: our user is unknown too.
    let ps = vec![process(14, "cargo-apple-runner", false, Some(7))];
    assert!(other_runner_processes(&ps, runner, 10));
    assert!(!other_runner_processes(&vec![], runner, 10));
}
