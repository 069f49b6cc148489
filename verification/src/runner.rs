//! What the runner does with a binary, decided from its platform.
use vstd::prelude::*;

use crate::platform::Platform;

verus! {

/// How a binary is run.
#[derive(Debug, Clone, Copy, PartialEq, Eq, Structural)]
pub enum LaunchPlan {
    /// Run the executable on the host (macOS and Mac Catalyst).
    Host,
    /// Run it on a booted simulator device: launch the bundled app when
    /// `launch_app`, else spawn the executable.
    Simulator { launch_app: bool },
}

/// Why a binary cannot be run.
#[derive(Debug, Clone, Copy, PartialEq, Eq, Structural)]
pub enum LaunchError {
    /// Real iOS, tvOS, watchOS and visionOS devices are not supported yet.
    DeviceNotSupported,
    /// Any other platform.
    UnsupportedPlatform,
}

pub open spec fn spec_launch_plan(platform: Platform, gui_like: bool) -> Result<LaunchPlan, LaunchError> {
    let p = platform.0;
    if p == 1 || p == 6 {
        Ok(LaunchPlan::Host)
    } else if platform.spec_is_simulator() {
        Ok(LaunchPlan::Simulator { launch_app: gui_like })
    } else if p == 2 || p == 3 || p == 4 || p == 11 {
        Err(LaunchError::DeviceNotSupported)
    } else {
        Err(LaunchError::UnsupportedPlatform)
    }
}

/// How to run a binary for `platform`: GUI-like binaries are launched as
/// apps on the simulator, others are spawned.
pub fn launch_plan(platform: Platform, gui_like: bool) -> (res: Result<LaunchPlan, LaunchError>)
    ensures
        res == spec_launch_plan(platform, gui_like),
        platform.spec_is_simulator() ==> res == Ok::<LaunchPlan, LaunchError>(
            LaunchPlan::Simulator { launch_app: gui_like },
        ),
{
    proof {
        lemma_launch_plan_cases(platform, gui_like);
    }
    let p = platform.0;
    if p == 1 || p == 6 {
        Ok(LaunchPlan::Host)
    } else if platform.is_simulator() {
        Ok(LaunchPlan::Simulator { launch_app: gui_like })
    } else if p == 2 || p == 3 || p == 4 || p == 11 {
        Err(LaunchError::DeviceNotSupported)
    } else {
        Err(LaunchError::UnsupportedPlatform)
    }
}

/// macOS and Mac Catalyst binaries run on the host; every simulator binary
/// (iOS, tvOS, watchOS and visionOS simulators alike) runs on a simulator,
/// launched as an app exactly when it is GUI-like; binaries for real
/// devices are refused as not supported yet, and all others as unsupported.
pub proof fn lemma_launch_plan_cases(platform: Platform, gui_like: bool)
    ensures
        platform.0 == 1 || platform.0 == 6 ==> spec_launch_plan(platform, gui_like) == Ok::<
            LaunchPlan,
            LaunchError,
        >(LaunchPlan::Host),
        platform.spec_is_simulator() ==> spec_launch_plan(platform, gui_like) == Ok::<
            LaunchPlan,
            LaunchError,
        >(LaunchPlan::Simulator { launch_app: gui_like }),
        platform.0 == 7 || platform.0 == 8 || platform.0 == 9 || platform.0 == 12
            ==> spec_launch_plan(platform, gui_like) is Ok,
        spec_launch_plan(platform, gui_like) matches Ok(LaunchPlan::Simulator { launch_app })
            ==> platform.spec_is_simulator() && launch_app == gui_like,
        platform.0 == 2 || platform.0 == 3 || platform.0 == 4 || platform.0 == 11
            ==> spec_launch_plan(platform, gui_like) == Err::<LaunchPlan, LaunchError>(
            LaunchError::DeviceNotSupported,
        ),
{
}

/// The entitlements to sign with: none on a simulator (the binary carries
/// its entitlements in `__ents_der` there), else the embedded ones.
pub fn signing_entitlements(platform: Platform, entitlements: &Option<Vec<u8>>) -> (res: Option<Vec<u8>>)
    ensures
        platform.spec_is_simulator() ==> res is None,
        !platform.spec_is_simulator() ==> match *entitlements {
            Some(e) => res matches Some(r) && r@ == e@,
            None => res is None,
        },
{
    if platform.is_simulator() {
        None
    } else {
        match entitlements {
            Some(e) => Some(e.clone()),
            None => None,
        }
    }
}

/// The signing identity: the value of `CODE_SIGN_IDENTITY`, else `-`
/// (ad-hoc signing).
pub fn signing_identity(configured: Option<String>) -> (res: String)
    ensures
        res@ == (match configured {
            Some(s) => s@,
            None => "-"@,
        }),
{
    match configured {
        Some(s) => s,
        None => String::from_str("-"),
    }
}

} // verus!
