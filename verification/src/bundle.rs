//! The layout and `Info.plist` of app bundles
//! (<https://developer.apple.com/go/?id=bundle-structure>).
use vstd::prelude::*;

use crate::binary::Binary;
use crate::cargo::CargoEnv;
use crate::platform::{
    device_families, sdk_name, spec_device_families, spec_sdk_name, Platform, PLATFORM_MACOS,
};
use crate::text::{
    chars_of, decimal, push_chars, push_decimal, push_str, slice_chars,
    string_from_chars,
};
use crate::version::version_text;

verus! {

// ---------------------------------------------------------------------------
// Paths
// ---------------------------------------------------------------------------

/// The index of the last `/` in `p`.
pub open spec fn last_slash(p: Seq<char>) -> Option<int>
    decreases p.len(),
{
    if p.len() == 0 {
        None
    } else if p.last() == '/' {
        Some(p.len() - 1)
    } else {
        last_slash(p.drop_last())
    }
}

pub proof fn lemma_last_slash(p: Seq<char>)
    ensures
        match last_slash(p) {
            Some(i) => 0 <= i < p.len() && p[i] == '/' && forall|k: int|
                i < k < p.len() ==> #[trigger] p[k] != '/',
            None => forall|k: int| 0 <= k < p.len() ==> #[trigger] p[k] != '/',
        },
    decreases p.len(),
{
    if p.len() > 0 && p.last() != '/' {
        lemma_last_slash(p.drop_last());
        assert forall|k: int| 0 <= k < p.len() - 1 implies p[k] == p.drop_last()[k] by {}
    }
}

/// Where the final component of a `/`-separated path stands, as
/// `Path::file_name` finds it: trailing separators and `.` components do not
/// count, and a final `..` has no file name. The span is the start and the
/// end (exclusive) of the name in `p`.
pub open spec fn file_name_span(p: Seq<char>) -> Option<(int, int)>
    decreases p.len(),
{
    if p.len() == 0 {
        None
    } else if p.last() == '/' {
        file_name_span(p.drop_last())
    } else {
        let start = match last_slash(p) {
            Some(i) => i + 1,
            None => 0,
        };
        let seg = p.skip(start);
        if seg == seq!['.'] {
            proof {
                lemma_last_slash(p);
            }
            file_name_span(p.take(start))
        } else if seg == seq!['.', '.'] {
            None
        } else {
            Some((start, p.len() as int))
        }
    }
}

/// The final component of a `/`-separated path, as `Path::file_name` gives
/// it.
pub open spec fn file_name_of(p: Seq<char>) -> Option<Seq<char>> {
    match file_name_span(p) {
        Some((start, end)) => Some(p.subrange(start, end)),
        None => None,
    }
}

/// The span of a file name lies within the path.
pub proof fn lemma_file_name_span(p: Seq<char>)
    ensures
        file_name_span(p) matches Some((start, end)) ==> 0 <= start < end <= p.len(),
    decreases p.len(),
{
    if p.len() > 0 {
        if p.last() == '/' {
            lemma_file_name_span(p.drop_last());
        } else {
            lemma_last_slash(p);
            let start = match last_slash(p) {
                Some(i) => i + 1,
                None => 0,
            };
            if p.skip(start) == seq!['.'] {
                lemma_file_name_span(p.take(start));
            }
        }
    }
}

/// Finds the file name of the path `cs` (see `file_name_span`).
fn find_file_name(cs: &Vec<char>) -> (res: Option<(usize, usize)>)
    ensures
        match file_name_span(cs@) {
            Some((start, end)) => res matches Some((s, e)) && s == start && e == end,
            None => res is None,
        },
{
    let mut end: usize = cs.len();
    assert(cs@.take(end as int) =~= cs@);
    loop
        invariant
            end <= cs@.len(),
            file_name_span(cs@) == file_name_span(cs@.take(end as int)),
        decreases end,
    {
        let ghost p = cs@.take(end as int);
        if end == 0 {
            return None;
        }
        if cs[end - 1] == '/' {
            assert(p.drop_last() =~= cs@.take(end - 1));
            end = end - 1;
        } else {
            let mut start: usize = end - 1;
            while start > 0 && cs[start - 1] != '/'
                invariant
                    start < end <= cs@.len(),
                    p == cs@.take(end as int),
                    forall|k: int| start <= k < end ==> #[trigger] cs@[k] != '/',
                decreases start,
            {
                start = start - 1;
            }
            proof {
                lemma_last_slash(p);
                match last_slash(p) {
                    Some(i) => {
                        if start > 0 {
                            assert(p[start - 1] == '/');
                            assert(i == start - 1);
                        } else {
                            assert(p[i] == '/');
                        }
                    },
                    None => {
                        if start > 0 {
                            assert(p[start - 1] == '/');
                        }
                    },
                }
            }
            let ghost seg = p.skip(start as int);
            if end - start == 1 && cs[start] == '.' {
                assert(seg =~= seq!['.']);
                assert(p.take(start as int) =~= cs@.take(start as int));
                end = start;
            } else if end - start == 2 && cs[start] == '.' && cs[start + 1] == '.' {
                assert(seg =~= seq!['.', '.']);
                return None;
            } else {
                assert(seg.len() == end - start);
                assert(seg != seq!['.']) by {
                    if seg == seq!['.'] {
                        assert(seq!['.'].len() == 1 && seq!['.'][0] == '.');
                        assert(seg[0] == cs@[start as int]);
                    }
                }
                assert(seg != seq!['.', '.']) by {
                    if seg == seq!['.', '.'] {
                        assert(seq!['.', '.'].len() == 2 && seq!['.', '.'][0] == '.' && seq!['.', '.'][1] == '.');
                        assert(seg[0] == cs@[start as int]);
                        assert(seg[1] == cs@[start + 1]);
                    }
                }
                return Some((start, end));
            }
        }
    }
}

/// The file name of `path` (see `file_name_of`).
pub fn file_name(path: &str) -> (res: Option<String>)
    ensures
        match file_name_of(path@) {
            Some(n) => res matches Some(s) && s@ == n,
            None => res is None,
        },
{
    let cs = chars_of(path);
    proof {
        lemma_file_name_span(cs@);
    }
    match find_file_name(&cs) {
        Some((start, end)) => {
            let seg = slice_chars(&cs, start, end);
            assert(seg@ =~= path@.subrange(start as int, end as int));
            Some(string_from_chars(&seg))
        },
        None => None,
    }
}

/// `path` with `.app` added, as `Path::with_added_extension` adds it: after
/// the file name, so that trailing separators and `.` components go.
pub open spec fn bundle_path_of(path: Seq<char>) -> Seq<char> {
    match file_name_span(path) {
        Some((_, end)) => path.take(end) + ".app"@,
        None => path,
    }
}

/// The directories, below the bundle, that hold the executable: `Contents`
/// and `MacOS` on macOS, none elsewhere.
pub open spec fn spec_executable_dir(p: Platform) -> Seq<Seq<char>> {
    if p.0 == 1 {
        seq!["Contents"@, "MacOS"@]
    } else {
        Seq::empty()
    }
}

/// The path components, below the bundle, of the `Info.plist`:
/// `Contents/Info.plist` on macOS, `Info.plist` elsewhere.
pub open spec fn spec_info_plist_path(p: Platform) -> Seq<Seq<char>> {
    if p.0 == 1 {
        seq!["Contents"@, "Info.plist"@]
    } else {
        seq!["Info.plist"@]
    }
}

pub fn executable_dir(platform: Platform) -> (res: Vec<&'static str>)
    ensures
        res@.map_values(|s: &str| s@) == spec_executable_dir(platform),
{
    let mut res: Vec<&'static str> = Vec::new();
    if platform.0 == PLATFORM_MACOS {
        res.push("Contents");
        res.push("MacOS");
    }
    assert(res@.map_values(|s: &str| s@) =~= spec_executable_dir(platform));
    res
}

pub fn info_plist_path(platform: Platform) -> (res: Vec<&'static str>)
    ensures
        res@.map_values(|s: &str| s@) == spec_info_plist_path(platform),
{
    let mut res: Vec<&'static str> = Vec::new();
    if platform.0 == PLATFORM_MACOS {
        res.push("Contents");
    }
    res.push("Info.plist");
    assert(res@.map_values(|s: &str| s@) =~= spec_info_plist_path(platform));
    res
}

/// Where the parts of an app bundle go.
#[derive(Debug)]
pub struct BundleLayout {
    /// The bundle: the binary's path with `.app` added after its file name.
    pub bundle_path: String,
    /// The directories, below the bundle, that hold the executable.
    pub executable_dir: Vec<&'static str>,
    /// The file name of the executable in the bundle: the binary's.
    pub executable_name: String,
    /// The path components, below the bundle, of the `Info.plist`.
    pub info_plist_path: Vec<&'static str>,
}

/// The layout of the bundle of `binary`. Only GUI-like binaries are
/// bundled: they need to be launched as apps; other binaries run as they
/// are.
pub fn bundle_layout(binary: &Binary) -> (res: Option<BundleLayout>)
    requires
        binary.gui_like ==> file_name_of(binary.path@) is Some,
    ensures
        res is Some <==> binary.gui_like,
        res matches Some(l) ==> {
            &&& l.bundle_path@ == bundle_path_of(binary.path@)
            &&& l.executable_dir@.map_values(|s: &str| s@) == spec_executable_dir(
                binary.spec_platform(),
            )
            &&& l.executable_name@ == file_name_of(binary.path@)->0
            &&& l.info_plist_path@.map_values(|s: &str| s@) == spec_info_plist_path(
                binary.spec_platform(),
            )
        },
{
    if !binary.gui_like {
        return None;
    }
    let executable_name = match file_name(binary.path.as_str()) {
        Some(n) => n,
        None => {
            return None;
        },
    };
    let cs = chars_of(binary.path.as_str());
    proof {
        lemma_file_name_span(cs@);
    }
    let end = match find_file_name(&cs) {
        Some((_, end)) => end,
        None => {
            return None;
        },
    };
    let mut path: Vec<char> = slice_chars(&cs, 0, end);
    push_str(&mut path, ".app");
    assert(path@ =~= bundle_path_of(binary.path@));
    let platform = binary.platform();
    Some(
        BundleLayout {
            bundle_path: string_from_chars(&path),
            executable_dir: executable_dir(platform),
            executable_name,
            info_plist_path: info_plist_path(platform),
        },
    )
}

// ---------------------------------------------------------------------------
// The default Info.plist
// ---------------------------------------------------------------------------

/// `String::from_utf8_lossy`'s result on `bytes`.
pub uninterp spec fn utf8_lossy_text(bytes: Seq<u8>) -> Seq<char>;

/// `String::from_utf8_lossy`: decodes UTF-8, replacing each invalid
/// sequence by U+FFFD. Stated: the result is a function of the bytes, and
/// valid UTF-8 is decoded as is.
#[verifier::external_body]
fn utf8_lossy(bytes: &[u8]) -> (res: String)
    ensures
        res@ == utf8_lossy_text(bytes@),
        vstd::utf8::valid_utf8(bytes@) ==> res@ == vstd::utf8::decode_utf8(bytes@),
{
    String::from_utf8_lossy(bytes).into_owned()
}

pub const PLIST_HEAD: &'static str = "<?xml version=\"1.0\" encoding=\"UTF-8\"?>
<!DOCTYPE plist PUBLIC \"-//Apple Computer//DTD PLIST 1.0//EN\" \"http://www.apple.com/DTDs/PropertyList-1.0.dtd\">
<plist version=\"1.0\">
<dict>
  <key>CFBundleDevelopmentRegion</key>
  <string>en</string>
  <key>CFBundleName</key>
  <string>";

pub const PLIST_DISPLAY_NAME: &'static str = "</string>
  <key>CFBundleDisplayName</key>
  <string>";

pub const PLIST_IDENTIFIER: &'static str = "</string>
  <key>CFBundleIdentifier</key>
  <string>";

pub const PLIST_VERSIONS: &'static str = "</string>
  <key>CFBundleVersion</key>
  <string>1.0</string>
  <key>CFBundleShortVersionString</key>
  <string>";

pub const PLIST_EXECUTABLE: &'static str = "</string>
  <key>CFBundlePackageType</key>
  <string>APPL</string>
  <key>CFBundleExecutable</key>
  <string>";

pub const PLIST_MACOS_MINIMUM: &'static str = "</string>
  <key>LSMinimumSystemVersion</key>
  <string>";

pub const PLIST_MACOS_TAIL: &'static str = "</string>
  <key>CFBundleInfoDictionaryVersion</key>
  <string>6.0</string>
</dict>
</plist>
";

pub const PLIST_DEVICE_MINIMUM: &'static str = "</string>
  <key>MinimumOSVersion</key>
  <string>";

pub const PLIST_DEVICE_PLATFORMS: &'static str = "</string>
  <key>CFBundleInfoDictionaryVersion</key>
  <string>6.0</string>
  <key>LSRequiresIPhoneOS</key>
  <true/>
  <key>CFBundleSupportedPlatforms</key>
  <array>
    <string>";

pub const PLIST_DEVICE_FAMILIES: &'static str = "</string>
  </array>
  <key>UIDeviceFamily</key>
  <array>
";

pub const PLIST_DEVICE_TAIL: &'static str = "  </array>
</dict>
</plist>
";

pub const PLIST_FAMILY_OPEN: &'static str = "    <integer>";

pub const PLIST_FAMILY_CLOSE: &'static str = "</integer>
";

/// The `<integer>` lines of the device families.
pub open spec fn family_lines(families: Seq<u32>) -> Seq<char>
    decreases families.len(),
{
    if families.len() == 0 {
        Seq::empty()
    } else {
        family_lines(families.drop_last()) + PLIST_FAMILY_OPEN@ + decimal(families.last() as nat)
            + PLIST_FAMILY_CLOSE@
    }
}

/// The name shown for the app: the `LC_ID_DYLIB` name when there is one,
/// else the file name.
pub open spec fn display_name_of(binary: Binary, file_name: Seq<char>) -> Seq<char> {
    match binary.name {
        Some(bytes) => utf8_lossy_text(bytes@),
        None => file_name,
    }
}

/// The text of the `Info.plist` generated for `binary`, whose file name is
/// `name`.
pub open spec fn spec_default_info_plist(binary: Binary, env: CargoEnv, name: Seq<char>) -> Seq<
    char,
> {
    let platform = binary.spec_platform();
    let common = PLIST_HEAD@ + name + PLIST_DISPLAY_NAME@ + display_name_of(binary, name)
        + PLIST_IDENTIFIER@ + env.pkg_name@ + seq!['.'] + name + PLIST_VERSIONS@
        + env.pkg_version@ + PLIST_EXECUTABLE@ + name;
    let minos = version_text(binary.spec_version().minos);
    if platform.0 == 1 {
        common + PLIST_MACOS_MINIMUM@ + minos + PLIST_MACOS_TAIL@
    } else {
        common + PLIST_DEVICE_MINIMUM@ + minos + PLIST_DEVICE_PLATFORMS@ + spec_sdk_name(platform)
            + PLIST_DEVICE_FAMILIES@ + family_lines(spec_device_families(platform))
            + PLIST_DEVICE_TAIL@
    }
}

/// `text` holds `a`, then `needle`, then `b`: the needle occurs in it.
proof fn lemma_occurs_between(text: Seq<char>, a: Seq<char>, needle: Seq<char>, b: Seq<char>)
    requires
        text == a + needle + b,
    ensures
        crate::text::occurs_in(text, needle),
{
    let i = a.len() as int;
    assert(text.subrange(i, i + needle.len()) =~= needle);
}

/// The generated `Info.plist` states the binary's minimum OS version as
/// `LSMinimumSystemVersion` for macOS, and for every other platform
/// (Mac Catalyst included) as `MinimumOSVersion`, together with the
/// platform's SDK name under `CFBundleSupportedPlatforms`.
pub proof fn lemma_default_plist_platform_keys(binary: Binary, env: CargoEnv, name: Seq<char>)
    ensures
        binary.spec_platform().0 == 1 ==> crate::text::occurs_in(
            spec_default_info_plist(binary, env, name),
            "<key>LSMinimumSystemVersion</key>\n  <string>"@ + version_text(
                binary.spec_version().minos,
            ) + "</string>"@,
        ),
        binary.spec_platform().0 != 1 ==> crate::text::occurs_in(
            spec_default_info_plist(binary, env, name),
            "<key>MinimumOSVersion</key>\n  <string>"@ + version_text(binary.spec_version().minos)
                + "</string>"@,
        ),
        binary.spec_platform().0 != 1 ==> crate::text::occurs_in(
            spec_default_info_plist(binary, env, name),
            "<key>CFBundleSupportedPlatforms</key>\n  <array>\n    <string>"@ + spec_sdk_name(
                binary.spec_platform(),
            ) + "</string>"@,
        ),
{
    reveal_strlit("</string>\n  <key>LSMinimumSystemVersion</key>\n  <string>");
    reveal_strlit("</string>\n  <key>MinimumOSVersion</key>\n  <string>");
    reveal_strlit("</string>\n  <key>CFBundleInfoDictionaryVersion</key>\n  <string>6.0</string>\n</dict>\n</plist>\n");
    reveal_strlit("</string>\n  <key>CFBundleInfoDictionaryVersion</key>\n  <string>6.0</string>\n  <key>LSRequiresIPhoneOS</key>\n  <true/>\n  <key>CFBundleSupportedPlatforms</key>\n  <array>\n    <string>");
    reveal_strlit("</string>\n  </array>\n  <key>UIDeviceFamily</key>\n  <array>\n");
    reveal_strlit("<key>LSMinimumSystemVersion</key>\n  <string>");
    reveal_strlit("<key>MinimumOSVersion</key>\n  <string>");
    reveal_strlit("<key>CFBundleSupportedPlatforms</key>\n  <array>\n    <string>");
    reveal_strlit("</string>");
    reveal_strlit("</string>\n  ");
    reveal_strlit("</string>\n  <key>CFBundleInfoDictionaryVersion</key>\n  <string>6.0</string>\n  <key>LSRequiresIPhoneOS</key>\n  <true/>\n  ");
    let platform = binary.spec_platform();
    let text = spec_default_info_plist(binary, env, name);
    let common = PLIST_HEAD@ + name + PLIST_DISPLAY_NAME@ + display_name_of(binary, name)
        + PLIST_IDENTIFIER@ + env.pkg_name@ + seq!['.'] + name + PLIST_VERSIONS@
        + env.pkg_version@ + PLIST_EXECUTABLE@ + name;
    let minos = version_text(binary.spec_version().minos);
    let close = "</string>"@;
    let lead = "</string>\n  "@;
    if platform.0 == 1 {
        let key = "<key>LSMinimumSystemVersion</key>\n  <string>"@;
        assert(PLIST_MACOS_MINIMUM@ =~= lead + key);
        let tail = PLIST_MACOS_TAIL@.skip(close.len() as int);
        assert(PLIST_MACOS_TAIL@ =~= close + tail);
        assert(text =~= (common + lead) + (key + minos + close) + tail);
        lemma_occurs_between(text, common + lead, key + minos + close, tail);
    } else {
        let sdk = spec_sdk_name(platform);
        let rest = PLIST_DEVICE_FAMILIES@.skip(close.len() as int) + family_lines(
            spec_device_families(platform),
        ) + PLIST_DEVICE_TAIL@;
        let key = "<key>MinimumOSVersion</key>\n  <string>"@;
        assert(PLIST_DEVICE_MINIMUM@ =~= lead + key);
        let mid = "</string>\n  <key>CFBundleInfoDictionaryVersion</key>\n  <string>6.0</string>\n  <key>LSRequiresIPhoneOS</key>\n  <true/>\n  "@;
        let pkey = "<key>CFBundleSupportedPlatforms</key>\n  <array>\n    <string>"@;
        assert(PLIST_DEVICE_PLATFORMS@ =~= mid + pkey);
        assert(mid =~= close + mid.skip(close.len() as int));
        assert(PLIST_DEVICE_FAMILIES@ =~= close + PLIST_DEVICE_FAMILIES@.skip(close.len() as int));
        assert(text =~= (common + lead) + (key + minos + close) + (mid.skip(close.len() as int)
            + pkey + sdk + PLIST_DEVICE_FAMILIES@ + family_lines(spec_device_families(platform))
            + PLIST_DEVICE_TAIL@));
        lemma_occurs_between(
            text,
            common + lead,
            key + minos + close,
            mid.skip(close.len() as int) + pkey + sdk + PLIST_DEVICE_FAMILIES@ + family_lines(
                spec_device_families(platform),
            ) + PLIST_DEVICE_TAIL@,
        );
        assert(text =~= (common + PLIST_DEVICE_MINIMUM@ + minos + mid) + (pkey + sdk + close)
            + rest);
        lemma_occurs_between(text, common + PLIST_DEVICE_MINIMUM@ + minos + mid, pkey + sdk + close, rest);
    }
}

/// The `Info.plist` written into the bundle of a binary that embeds none.
/// Its bundle identifier is `<package name>.<file name>`; its minimum OS
/// version is the binary's; on platforms other than macOS it names the SDK
/// and the device families.
pub fn default_info_plist(binary: &Binary, cargo_env: &CargoEnv) -> (res: String)
    requires
        file_name_of(binary.path@) is Some,
    ensures
        res@ == spec_default_info_plist(*binary, *cargo_env, file_name_of(binary.path@)->0),
{
    let name = match file_name(binary.path.as_str()) {
        Some(n) => n,
        None => {
            return String::new();
        },
    };
    let display_name = match &binary.name {
        Some(bytes) => utf8_lossy(bytes.as_slice()),
        None => name.clone(),
    };
    let platform = binary.platform();
    let mut out: Vec<char> = Vec::new();
    push_str(&mut out, PLIST_HEAD);
    push_str(&mut out, name.as_str());
    push_str(&mut out, PLIST_DISPLAY_NAME);
    push_str(&mut out, display_name.as_str());
    push_str(&mut out, PLIST_IDENTIFIER);
    push_str(&mut out, cargo_env.pkg_name.as_str());
    out.push('.');
    push_str(&mut out, name.as_str());
    push_str(&mut out, PLIST_VERSIONS);
    push_str(&mut out, cargo_env.pkg_version.as_str());
    push_str(&mut out, PLIST_EXECUTABLE);
    push_str(&mut out, name.as_str());
    let minos = binary.minos().text_chars();
    if platform.0 == PLATFORM_MACOS {
        push_str(&mut out, PLIST_MACOS_MINIMUM);
        push_chars(&mut out, &minos);
        push_str(&mut out, PLIST_MACOS_TAIL);
    } else {
        push_str(&mut out, PLIST_DEVICE_MINIMUM);
        push_chars(&mut out, &minos);
        push_str(&mut out, PLIST_DEVICE_PLATFORMS);
        push_str(&mut out, sdk_name(platform));
        push_str(&mut out, PLIST_DEVICE_FAMILIES);
        let families = device_families(platform);
        let ghost before = out@;
        let mut i: usize = 0;
        while i < families.len()
            invariant
                i <= families@.len(),
                out@ =~= before + family_lines(families@.take(i as int)),
            decreases families.len() - i,
        {
            push_str(&mut out, PLIST_FAMILY_OPEN);
            push_decimal(&mut out, families[i]);
            push_str(&mut out, PLIST_FAMILY_CLOSE);
            assert(families@.take(i + 1).drop_last() =~= families@.take(i as int));
            i = i + 1;
        }
        assert(families@.take(families@.len() as int) =~= families@);
        push_str(&mut out, PLIST_DEVICE_TAIL);
    }
    assert(out@ =~= spec_default_info_plist(*binary, *cargo_env, name@));
    string_from_chars(&out)
}

// ---------------------------------------------------------------------------
// The bundle identifier
// ---------------------------------------------------------------------------

#[verifier::external_type_specification]
#[verifier::external_body]
pub struct ExPlistError(plist::Error);

/// What reading `data` as a property list gives for the string under `key`
/// in its top-level dictionary: `None` when `data` is no property list,
/// `Some(None)` when its top level is no dictionary, `Some(Some(None))` when
/// the dictionary holds no string under `key`, else the string.
pub uninterp spec fn plist_string_entry(data: Seq<u8>, key: Seq<char>) -> Option<
    Option<Option<Seq<char>>>,
>;

/// `plist::from_bytes::<plist::Value>`, then `Value::as_dictionary`,
/// `Dictionary::get` and `Value::as_string` on what it read. Stated: the
/// outcome is a function of the bytes and the key (`plist_string_entry`),
/// and the parse error is handed back as is.
#[verifier::external_body]
fn read_plist_string(data: &[u8], key: &str) -> (res: Result<Option<Option<String>>, plist::Error>)
    ensures
        match plist_string_entry(data@, key@) {
            None => res is Err,
            Some(None) => res matches Ok(None),
            Some(Some(None)) => res matches Ok(Some(None)),
            Some(Some(Some(s))) => res matches Ok(Some(Some(v))) && v@ == s,
        },
{
    let value: plist::Value = plist::from_bytes(data)?;
    Ok(value.as_dictionary().map(|d| d.get(key).and_then(|v| v.as_string()).map(|s| s.to_string())))
}

/// Why the bundle identifier could not be read from an `Info.plist`.
#[derive(Debug)]
pub enum InfoPlistError {
    /// The data is no property list.
    Invalid(plist::Error),
    /// The property list is not a dictionary.
    NotDictionary,
}

/// The `CFBundleIdentifier` of an `Info.plist`: `None` when it has none (or
/// it is not a string).
pub fn bundle_identifier(info_plist: &[u8]) -> (res: Result<Option<String>, InfoPlistError>)
    ensures
        match plist_string_entry(info_plist@, "CFBundleIdentifier"@) {
            None => res matches Err(InfoPlistError::Invalid(_)),
            Some(None) => res matches Err(InfoPlistError::NotDictionary),
            Some(Some(None)) => res matches Ok(None),
            Some(Some(Some(s))) => res matches Ok(Some(v)) && v@ == s,
        },
{
    match read_plist_string(info_plist, "CFBundleIdentifier") {
        Err(e) => Err(InfoPlistError::Invalid(e)),
        Ok(None) => Err(InfoPlistError::NotDictionary),
        Ok(Some(id)) => Ok(id),
    }
}

/// The `Info.plist` that goes into the bundle: the one embedded in the
/// binary, else the default one.
pub fn info_plist_contents(binary: &Binary, cargo_env: &CargoEnv) -> (res: Vec<u8>)
    requires
        file_name_of(binary.path@) is Some,
    ensures
        match binary.info_plist_data {
            Some(data) => res@ == data@,
            None => res@ == vstd::utf8::encode_utf8(
                spec_default_info_plist(*binary, *cargo_env, file_name_of(binary.path@)->0),
            ),
        },
{
    match &binary.info_plist_data {
        Some(data) => data.clone(),
        None => {
            let text = default_info_plist(binary, cargo_env);
            text.as_str().as_bytes_vec()
        },
    }
}

/// The generated `Info.plist` names the bundle `<package name>.<file name>`
/// and states the binary's minimum OS version.
pub proof fn lemma_default_plist_entries(binary: Binary, env: CargoEnv, name: Seq<char>)
    ensures
        crate::text::occurs_in(
            spec_default_info_plist(binary, env, name),
            PLIST_IDENTIFIER@ + env.pkg_name@ + seq!['.'] + name + PLIST_VERSIONS@,
        ),
        crate::text::occurs_in(
            spec_default_info_plist(binary, env, name),
            version_text(binary.spec_version().minos),
        ),
{
    let text = spec_default_info_plist(binary, env, name);
    let before = PLIST_HEAD@ + name + PLIST_DISPLAY_NAME@ + display_name_of(binary, name);
    let entry = PLIST_IDENTIFIER@ + env.pkg_name@ + seq!['.'] + name + PLIST_VERSIONS@;
    let i = before.len() as int;
    assert(text.subrange(i, i + entry.len()) =~= entry);
    let common = PLIST_HEAD@ + name + PLIST_DISPLAY_NAME@ + display_name_of(binary, name)
        + PLIST_IDENTIFIER@ + env.pkg_name@ + seq!['.'] + name + PLIST_VERSIONS@
        + env.pkg_version@ + PLIST_EXECUTABLE@ + name;
    let minos = version_text(binary.spec_version().minos);
    let j = if binary.spec_platform().0 == 1 {
        (common + PLIST_MACOS_MINIMUM@).len() as int
    } else {
        (common + PLIST_DEVICE_MINIMUM@).len() as int
    };
    assert(text.subrange(j, j + minos.len()) =~= minos);
}

} // verus!
