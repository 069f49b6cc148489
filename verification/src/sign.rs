//! Code signing with `codesign`.
//!
//! Docs on code signing: TN2206 and the Apple developer account help; the
//! tech notes TN3125 (provisioning profiles), TN3126 (hashes), TN3127
//! (requirements) and TN3161 (certificates).
use vstd::prelude::*;

use crate::platform::{Platform, PLATFORM_MACOS};

verus! {

/// One argument of a `codesign` invocation.
#[derive(Debug)]
pub enum CodesignArg {
    /// A literal argument.
    Text(String),
    /// The path of the entitlements file.
    EntitlementsPath,
    /// The path of what is signed.
    TargetPath,
}

pub open spec fn text_arg(a: CodesignArg, s: Seq<char>) -> bool {
    a matches CodesignArg::Text(t) && t@ == s
}

/// The arguments of `codesign`: resign (`--force`) with the given identity,
/// with the entitlements when there are any (and their DER form, as Xcode
/// does), without contacting Apple's timestamp server on macOS, and the
/// path to sign last.
pub open spec fn codesign_args_spec(
    platform: Platform,
    identity: Seq<char>,
    entitlements: bool,
    args: Seq<CodesignArg>,
) -> bool {
    let e: int = if entitlements {
        3
    } else {
        0
    };
    let t: int = if platform.0 == 1 {
        1
    } else {
        0
    };
    &&& args.len() == 4 + e + t
    &&& text_arg(args[0], "--force"@)
    &&& text_arg(args[1], "--sign"@)
    &&& text_arg(args[2], identity)
    &&& entitlements ==> {
        &&& text_arg(args[3], "--entitlements"@)
        &&& args[4] is EntitlementsPath
        &&& text_arg(args[5], "--generate-entitlement-der"@)
    }
    &&& platform.0 == 1 ==> text_arg(args[3 + e], "--timestamp=none"@)
    &&& args[args.len() - 1] is TargetPath
}

/// The arguments with which `codesign` signs a bundle or binary for
/// `platform`. The signing identity is not otherwise chosen here: the
/// identifier and options come from the embedded `Info.plist`.
pub fn codesign_args(platform: Platform, identity: &str, entitlements: bool) -> (res: Vec<
    CodesignArg,
>)
    ensures
        codesign_args_spec(platform, identity@, entitlements, res@),
{
    let mut args: Vec<CodesignArg> = Vec::new();
    args.push(CodesignArg::Text(String::from_str("--force")));
    args.push(CodesignArg::Text(String::from_str("--sign")));
    args.push(CodesignArg::Text(String::from_str(identity)));
    if entitlements {
        args.push(CodesignArg::Text(String::from_str("--entitlements")));
        args.push(CodesignArg::EntitlementsPath);
        args.push(CodesignArg::Text(String::from_str("--generate-entitlement-der")));
    }
    if platform.0 == PLATFORM_MACOS {
        args.push(CodesignArg::Text(String::from_str("--timestamp=none")));
    }
    args.push(CodesignArg::TargetPath);
    args
}

/// The entitlements path is passed exactly when there are entitlements, and
/// at most once; the signed path comes last and only there.
pub proof fn lemma_codesign_paths(
    platform: Platform,
    identity: Seq<char>,
    entitlements: bool,
    args: Seq<CodesignArg>,
)
    requires
        codesign_args_spec(platform, identity, entitlements, args),
    ensures
        entitlements <==> exists|i: int| 0 <= i < args.len() && #[trigger] args[i] is EntitlementsPath,
        forall|i: int| 0 <= i < args.len() - 1 ==> !(#[trigger] args[i] is TargetPath),
        forall|i: int, j: int|
            0 <= i < j < args.len() && #[trigger] args[i] is EntitlementsPath ==> !(
            #[trigger] args[j] is EntitlementsPath),
{
    let e: int = if entitlements {
        3
    } else {
        0
    };
    assert forall|i: int| 0 <= i < args.len() && i != 4 implies !(#[trigger] args[i] is EntitlementsPath)
        || !entitlements by {
    }
}

} // verus!
