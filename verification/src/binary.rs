//! What the runner knows of a binary, read from its Mach-O load commands
//! and sections.
use vstd::prelude::*;

use object::read::macho::LoadCommandVariant;
use object::{Object, ObjectSection};

use crate::platform::{
    arch_of_cputype, spec_arch_of_cputype, spec_build_version_of, spec_default_build_version, spec_needs_info_plist,
    is_version_min_cmd, well_formed_kind, Arch, BuildVersion, LoadCommandKind, Platform,
};
use crate::version::OSVersion;

verus! {

/// Extracted information about a binary.
#[derive(Debug)]
pub struct Binary {
    /// The path to the binary.
    pub path: String,
    /// The architecture of the binary.
    pub arch: Arch,
    /// `LC_ID_DYLIB`.
    pub name: Option<Vec<u8>>,
    /// Usually one; a zippered binary (macOS and Mac Catalyst) has two.
    pub versions: Vec<BuildVersion>,
    /// Embedded `__TEXT,__info_plist` contents, if any (see the
    /// `embed_plist` crate).
    pub info_plist_data: Option<Vec<u8>>,
    /// Embedded `__TEXT,__entitlements` contents, if any (see the
    /// `embed_entitlements` crate).
    pub entitlements_data: Option<Vec<u8>>,
    /// Whether the binary is already (likely ad-hoc) signed.
    pub signed: bool,
    /// Whether the binary links a system GUI framework (AppKit, UIKit or
    /// WatchKit), and so is bundled and launched as an app.
    pub gui_like: bool,
}

impl Binary {
    /// The first build version, or the default one when there is none.
    pub open spec fn spec_version(self) -> BuildVersion {
        if self.versions@.len() > 0 {
            self.versions@[0]
        } else {
            spec_default_build_version()
        }
    }

    pub open spec fn spec_platform(self) -> Platform {
        self.spec_version().platform
    }

    pub fn version(&self) -> (v: BuildVersion)
        ensures
            v == self.spec_version(),
    {
        if self.versions.len() > 0 {
            self.versions[0]
        } else {
            BuildVersion::default()
        }
    }

    pub fn platform(&self) -> (p: Platform)
        ensures
            p == self.spec_platform(),
    {
        self.version().platform
    }

    pub fn minos(&self) -> (v: OSVersion)
        ensures
            v == self.spec_version().minos,
    {
        self.version().minos
    }

    pub fn sdk(&self) -> (v: OSVersion)
        ensures
            v == self.spec_version().sdk,
    {
        self.version().sdk
    }

    /// Whether a bundle of this binary needs an `Info.plist`.
    pub fn needs_info_plist(&self) -> (res: bool)
        ensures
            res == spec_needs_info_plist(self.spec_platform()),
    {
        crate::platform::needs_info_plist(self.platform())
    }
}

// ---------------------------------------------------------------------------
// Reading Mach-O files
// ---------------------------------------------------------------------------

#[verifier::external_type_specification]
#[verifier::external_body]
pub struct ExObjectError(object::Error);

/// The Mach-O header fields that the runner reads.
#[derive(Debug, Clone, Copy, PartialEq, Eq, Structural)]
pub struct MachHeader {
    pub cputype: u32,
    pub filetype: u32,
    /// The number of load commands.
    pub ncmds: u32,
}

/// A load command: its `cmd` value and what the runner reads of it.
#[derive(Debug)]
pub struct LoadCommandRecord {
    pub cmd: u32,
    pub kind: LoadCommandKind,
}

/// What `object::File::parse` makes of `data`: `None` when it fails,
/// `Some(None)` for a file that is not Mach-O, else the Mach-O header.
pub uninterp spec fn macho_header_of(data: Seq<u8>) -> Option<Option<MachHeader>>;

/// The `cmd` of the load command at `index`: `None` past the last one,
/// `Some(None)` when it cannot be read.
pub uninterp spec fn macho_command_type_at(data: Seq<u8>, index: int) -> Option<Option<u32>>;

/// The `platform`, `minos` and `sdk` of the load command at `index`, if it
/// is an `LC_BUILD_VERSION`.
pub uninterp spec fn macho_build_version_at(data: Seq<u8>, index: int) -> Option<(u32, u32, u32)>;

/// The `cmd`, `version` and `sdk` of the load command at `index`, if it is
/// an `LC_VERSION_MIN_*`.
pub uninterp spec fn macho_version_min_at(data: Seq<u8>, index: int) -> Option<(u32, u32, u32)>;

/// The name of the load command at `index`, if it is an `LC_ID_DYLIB`
/// (`Some(None)` when the name cannot be read).
pub uninterp spec fn macho_id_dylib_at(data: Seq<u8>, index: int) -> Option<Option<Seq<u8>>>;

/// The name of the load command at `index`, if it is one of the
/// `LC_*LOAD*_DYLIB` commands (`Some(None)` when the name cannot be read).
pub uninterp spec fn macho_dylib_at(data: Seq<u8>, index: int) -> Option<Option<Seq<u8>>>;

/// The contents of the section `name`: `None` when the file or the section
/// cannot be read, `Some(None)` when there is no such section.
pub uninterp spec fn macho_section_of(data: Seq<u8>, name: Seq<char>) -> Option<Option<Seq<u8>>>;


/// `object::File::parse`, then the `cputype`, `filetype` and `ncmds` fields of
/// a Mach-O header (in the file's byte order). Stated: the outcome is a
/// function of the bytes.
#[verifier::external_body]
fn read_macho_header(data: &[u8]) -> (res: Result<Option<MachHeader>, object::Error>)
    ensures
        match macho_header_of(data@) {
            None => res is Err,
            Some(h) => res == Ok::<Option<MachHeader>, object::Error>(h),
        },
{
    let file = object::File::parse(data)?;
    Ok(match &file {
        object::File::MachO32(m) => Some(MachHeader { cputype: m.macho_header().cputype.get(m.endian()).0, filetype: m.macho_header().filetype.get(m.endian()).0, ncmds: m.macho_header().ncmds.get(m.endian()) }),
        object::File::MachO64(m) => Some(MachHeader { cputype: m.macho_header().cputype.get(m.endian()).0, filetype: m.macho_header().filetype.get(m.endian()).0, ncmds: m.macho_header().ncmds.get(m.endian()) }),
        _ => None,
    })
}

/// `MachOFile::macho_load_commands`, then the `cmd` of item `index` of the
/// iterator (an error when the iterator cannot be made). Stated: a function
/// of the bytes and the index.
#[verifier::external_body]
fn read_command_type(data: &[u8], index: usize) -> (res: Option<Result<u32, object::Error>>)
    ensures
        match macho_command_type_at(data@, index as int) {
            None => res is None,
            Some(None) => res matches Some(Err(_)),
            Some(Some(c)) => res matches Some(Ok(v)) && v == c,
        },
{
    let file = object::File::parse(data).ok()?;
    let commands = match &file {
        object::File::MachO32(m) => m.macho_load_commands(),
        object::File::MachO64(m) => m.macho_load_commands(),
        _ => return None,
    };
    match commands { Ok(mut c) => Some(c.nth(index)?.map(|c| c.cmd().0)), Err(e) => Some(Err(e)) }
}

/// `LoadCommandData::variant` of load command `index`; for
/// `LC_BUILD_VERSION`, its `platform`, `minos` and `sdk` in the file's byte
/// order. Stated: a function of the bytes and the index.
#[verifier::external_body]
fn read_build_version(data: &[u8], index: usize) -> (res: Option<(u32, u32, u32)>)
    ensures
        res == macho_build_version_at(data@, index as int),
{
    let file = object::File::parse(data).ok()?;
    let (e, mut commands) = match &file {
        object::File::MachO32(m) => (m.endian(), m.macho_load_commands().ok()?),
        object::File::MachO64(m) => (m.endian(), m.macho_load_commands().ok()?),
        _ => return None,
    };
    match commands.nth(index)?.ok()?.variant().ok()? {
        LoadCommandVariant::BuildVersion(v, _) => Some((v.platform.get(e).0, v.minos.get(e).0, v.sdk.get(e).0)),
        _ => None,
    }
}

/// `LoadCommandData::variant` of load command `index`; for
/// `LC_VERSION_MIN_*`, its `cmd`, `version` and `sdk` in the file's byte
/// order. Stated: a function of the bytes and the index; the variant is only
/// made for the four `LC_VERSION_MIN_*` values of `cmd`.
#[verifier::external_body]
fn read_version_min(data: &[u8], index: usize) -> (res: Option<(u32, u32, u32)>)
    ensures
        res == macho_version_min_at(data@, index as int),
        res matches Some(v) ==> is_version_min_cmd(v.0),
{
    let file = object::File::parse(data).ok()?;
    let (e, mut commands) = match &file {
        object::File::MachO32(m) => (m.endian(), m.macho_load_commands().ok()?),
        object::File::MachO64(m) => (m.endian(), m.macho_load_commands().ok()?),
        _ => return None,
    };
    match commands.nth(index)?.ok()?.variant().ok()? {
        LoadCommandVariant::VersionMin(v) => Some((v.cmd.get(e).0, v.version.get(e).0, v.sdk.get(e).0)),
        _ => None,
    }
}

/// `LoadCommandData::variant` of load command `index`; for `LC_ID_DYLIB`,
/// its name as `LoadCommandData::string` reads it (`None` when that fails).
/// Stated: a function of the bytes and the index.
#[verifier::external_body]
fn read_id_dylib(data: &[u8], index: usize) -> (res: Option<Option<Vec<u8>>>)
    ensures
        opt_name(res) == macho_id_dylib_at(data@, index as int),
{
    let file = object::File::parse(data).ok()?;
    let (e, mut commands) = match &file {
        object::File::MachO32(m) => (m.endian(), m.macho_load_commands().ok()?),
        object::File::MachO64(m) => (m.endian(), m.macho_load_commands().ok()?),
        _ => return None,
    };
    let command = commands.nth(index)?.ok()?;
    match command.variant().ok()? {
        LoadCommandVariant::IdDylib(d) => Some(command.string(e, d.dylib.name).ok().map(|s| s.to_vec())),
        _ => None,
    }
}

/// `LoadCommandData::variant` of load command `index`; for one of the
/// `LC_*LOAD*_DYLIB` commands, its name as `LoadCommandData::string` reads
/// it (`None` when that fails). Stated: a function of the bytes and the
/// index.
#[verifier::external_body]
fn read_dylib(data: &[u8], index: usize) -> (res: Option<Option<Vec<u8>>>)
    ensures
        opt_name(res) == macho_dylib_at(data@, index as int),
{
    let file = object::File::parse(data).ok()?;
    let (e, mut commands) = match &file {
        object::File::MachO32(m) => (m.endian(), m.macho_load_commands().ok()?),
        object::File::MachO64(m) => (m.endian(), m.macho_load_commands().ok()?),
        _ => return None,
    };
    let command = commands.nth(index)?.ok()?;
    match command.variant().ok()? {
        LoadCommandVariant::Dylib(d) => Some(command.string(e, d.dylib.name).ok().map(|s| s.to_vec())),
        _ => None,
    }
}

/// `Object::section_by_name`, then `ObjectSection::segment_name_bytes` and
/// `ObjectSection::data` of the section found. Stated: a function of the
/// bytes and the name; the first error is handed back.
#[verifier::external_body]
fn read_section(data: &[u8], name: &str) -> (res: Result<Option<Vec<u8>>, object::Error>)
    ensures
        match macho_section_of(data@, name@) {
            None => res is Err,
            Some(None) => res matches Ok(None),
            Some(Some(s)) => res matches Ok(Some(v)) && v@ == s,
        },
{
    let file = object::File::parse(data)?;
    match file.section_by_name(name) {
        Some(section) => {
            section.segment_name_bytes()?;
            Ok(Some(section.data()?.to_vec()))
        },
        None => Ok(None),
    }
}

/// Why a binary could not be read.
#[derive(Debug)]
pub enum BinaryError {
    /// The file could not be parsed.
    Parse(object::Error),
    /// The file is not a Mach-O file.
    NotMachO,
    /// A load command could not be read.
    LoadCommand(object::Error),
    /// The name in `LC_ID_DYLIB` could not be read.
    IdDylibName,
    /// A section's segment name or contents could not be read.
    Section(object::Error),
}

/// `/AppKit`, `/UIKit` and `/WatchKit` in ASCII.
pub open spec fn appkit_suffix() -> Seq<u8> {
    seq![47u8, 65u8, 112u8, 112u8, 75u8, 105u8, 116u8]
}

pub open spec fn uikit_suffix() -> Seq<u8> {
    seq![47u8, 85u8, 73u8, 75u8, 105u8, 116u8]
}

pub open spec fn watchkit_suffix() -> Seq<u8> {
    seq![47u8, 87u8, 97u8, 116u8, 99u8, 104u8, 75u8, 105u8, 116u8]
}

pub open spec fn bytes_end_with(s: Seq<u8>, suffix: Seq<u8>) -> bool {
    suffix.len() <= s.len() && s.skip(s.len() - suffix.len()) == suffix
}

/// A dylib install name of a system GUI framework: one that ends in
/// `/AppKit`, `/UIKit` or `/WatchKit` (such as
/// `/System/Library/Frameworks/AppKit.framework/Versions/C/AppKit`).
pub open spec fn is_gui_framework(name: Seq<u8>) -> bool {
    bytes_end_with(name, appkit_suffix()) || bytes_end_with(name, uikit_suffix())
        || bytes_end_with(name, watchkit_suffix())
}

/// The GUI frameworks are exactly those whose install name ends in
/// `/AppKit`, `/UIKit` or `/WatchKit` (spelled out in ASCII bytes).
pub proof fn lemma_gui_framework_names(name: Seq<u8>)
    ensures
        is_gui_framework(name) <==> (name.len() >= 7 && name.skip(name.len() - 7) == seq![
            47u8, 65u8, 112u8, 112u8, 75u8, 105u8, 116u8,
        ]) || (name.len() >= 6 && name.skip(name.len() - 6) == seq![
            47u8, 85u8, 73u8, 75u8, 105u8, 116u8,
        ]) || (name.len() >= 9 && name.skip(name.len() - 9) == seq![
            47u8, 87u8, 97u8, 116u8, 99u8, 104u8, 75u8, 105u8, 116u8,
        ]),
{
    assert(appkit_suffix() =~= seq![47u8, 65u8, 112u8, 112u8, 75u8, 105u8, 116u8]);
    assert(uikit_suffix() =~= seq![47u8, 85u8, 73u8, 75u8, 105u8, 116u8]);
    assert(watchkit_suffix() =~= seq![47u8, 87u8, 97u8, 116u8, 99u8, 104u8, 75u8, 105u8, 116u8]);
}

fn ends_with_bytes(s: &[u8], suffix: &[u8]) -> (res: bool)
    ensures
        res == bytes_end_with(s@, suffix@),
{
    if suffix.len() > s.len() {
        return false;
    }
    let n = s.len();
    let off = n - suffix.len();
    let mut i: usize = 0;
    while i < suffix.len()
        invariant
            n == s@.len(),
            off + suffix@.len() == s@.len(),
            i <= suffix@.len(),
            forall|k: int| 0 <= k < i ==> s@[off + k] == suffix@[k],
        decreases suffix.len() - i,
    {
        if s[off + i] != suffix[i] {
            assert(s@.skip(off as int)[i as int] != suffix@[i as int]);
            return false;
        }
        i = i + 1;
    }
    assert(s@.skip(off as int) =~= suffix@);
    true
}

/// Whether the dylib install name `name` is that of a system GUI framework:
/// it ends in `/AppKit`, `/UIKit` or `/WatchKit`.
pub fn links_gui_framework(name: &[u8]) -> (res: bool)
    ensures
        res == is_gui_framework(name@),
        res <==> (name@.len() >= 7 && name@.skip(name@.len() - 7) == seq![
            47u8, 65u8, 112u8, 112u8, 75u8, 105u8, 116u8,
        ]) || (name@.len() >= 6 && name@.skip(name@.len() - 6) == seq![
            47u8, 85u8, 73u8, 75u8, 105u8, 116u8,
        ]) || (name@.len() >= 9 && name@.skip(name@.len() - 9) == seq![
            47u8, 87u8, 97u8, 116u8, 99u8, 104u8, 75u8, 105u8, 116u8,
        ]),
{
    proof {
        lemma_gui_framework_names(name@);
    }
    let appkit: Vec<u8> = vec![47u8, 65u8, 112u8, 112u8, 75u8, 105u8, 116u8];
    let uikit: Vec<u8> = vec![47u8, 85u8, 73u8, 75u8, 105u8, 116u8];
    let watchkit: Vec<u8> = vec![47u8, 87u8, 97u8, 116u8, 99u8, 104u8, 75u8, 105u8, 116u8];
    assert(appkit@ =~= appkit_suffix());
    assert(uikit@ =~= uikit_suffix());
    assert(watchkit@ =~= watchkit_suffix());
    ends_with_bytes(name, &appkit) || ends_with_bytes(name, &uikit) || ends_with_bytes(
        name,
        &watchkit,
    )
}

/// `LC_CODE_SIGNATURE`.
pub const LC_CODE_SIGNATURE: u32 = 0x1d;

/// What the load commands seen so far say of a binary.
#[derive(Debug)]
pub struct LoadCommandScan {
    pub versions: Vec<BuildVersion>,
    pub name: Option<Vec<u8>>,
    pub signed: bool,
    pub gui_like: bool,
}

/// The model of a scan: versions, `LC_ID_DYLIB` name, signed, GUI-like.
pub type ScanModel = (Seq<BuildVersion>, Option<Seq<u8>>, bool, bool);

/// The model of a load command: its `cmd`, its `LoadCommandKind` with dylib
/// names as byte sequences.
pub type CommandModel = (u32, KindModel);

/// `LoadCommandKind` with names as byte sequences:
/// build version fields, version-min fields, id-dylib name, dylib name.
pub type KindModel = (
    Option<(u32, u32, u32)>,
    Option<(u32, u32, u32)>,
    Option<Option<Seq<u8>>>,
    Option<Option<Seq<u8>>>,
);

pub open spec fn opt_bytes(o: Option<Vec<u8>>) -> Option<Seq<u8>> {
    match o {
        Some(v) => Some(v@),
        None => None,
    }
}

pub open spec fn opt_name(o: Option<Option<Vec<u8>>>) -> Option<Option<Seq<u8>>> {
    match o {
        Some(n) => Some(opt_bytes(n)),
        None => None,
    }
}

pub open spec fn kind_model(k: LoadCommandKind) -> KindModel {
    match k {
        LoadCommandKind::BuildVersion { platform, minos, sdk } => (
            Some((platform, minos, sdk)),
            None,
            None,
            None,
        ),
        LoadCommandKind::VersionMin { cmd, version, sdk } => (None, Some((cmd, version, sdk)), None, None),
        LoadCommandKind::IdDylib { name } => (None, None, Some(opt_bytes(name)), None),
        LoadCommandKind::Dylib { name } => (None, None, None, Some(opt_bytes(name))),
        LoadCommandKind::Other => (None, None, None, None),
    }
}

/// A scan of no load commands.
pub open spec fn empty_scan() -> ScanModel {
    (Seq::empty(), None, false, false)
}

/// The build version that a load command states, if any.
pub open spec fn model_build_version(k: KindModel, cputype: u32) -> Option<BuildVersion> {
    match k.0 {
        Some((p, m, s)) => spec_build_version_of(
            LoadCommandKind::BuildVersion { platform: p, minos: m, sdk: s },
            cputype,
        ),
        None => match k.1 {
            Some((c, v, s)) => spec_build_version_of(
                LoadCommandKind::VersionMin { cmd: c, version: v, sdk: s },
                cputype,
            ),
            None => None,
        },
    }
}

/// A dylib command that names a GUI framework.
pub open spec fn command_links_gui(c: CommandModel) -> bool {
    match c.1.3 {
        Some(Some(n)) => is_gui_framework(n),
        _ => false,
    }
}

/// The scan after one more load command; `None` when the command is an
/// `LC_ID_DYLIB` whose name cannot be read.
pub open spec fn spec_step(s: ScanModel, c: CommandModel, cputype: u32) -> Option<ScanModel> {
    let k = c.1;
    if k.2 == Some(None::<Seq<u8>>) {
        None
    } else {
        let versions = match model_build_version(k, cputype) {
            Some(v) => s.0.push(v),
            None => s.0,
        };
        let name = match k.2 {
            Some(Some(n)) => Some(n),
            _ => s.1,
        };
        Some((versions, name, s.2 || c.0 == 0x1d, s.3 || command_links_gui(c)))
    }
}

impl LoadCommandScan {
    pub open spec fn model(self) -> ScanModel {
        (self.versions@, opt_bytes(self.name), self.signed, self.gui_like)
    }

    pub fn new() -> (res: LoadCommandScan)
        ensures
            res.model() == empty_scan(),
    {
        let res = LoadCommandScan { versions: Vec::new(), name: None, signed: false, gui_like: false };
        assert(res.model() =~= empty_scan());
        res
    }

    /// Takes in one more load command of a binary whose CPU type is
    /// `cputype`: its build version, its dylib name, whether it is the code
    /// signature, whether it links a GUI framework.
    pub fn step(&mut self, rec: LoadCommandRecord, cputype: u32) -> (res: Result<(), BinaryError>)
        requires
            well_formed_kind(rec.kind),
        ensures
            match spec_step(old(self).model(), (rec.cmd, kind_model(rec.kind)), cputype) {
                None => res matches Err(BinaryError::IdDylibName),
                Some(m) => res is Ok && final(self).model() == m,
            },
    {
        let version = BuildVersion::from_load_command(&rec.kind, cputype);
        match rec.kind {
            LoadCommandKind::IdDylib { name } => match name {
                Some(n) => {
                    self.name = Some(n);
                },
                None => {
                    return Err(BinaryError::IdDylibName);
                },
            },
            LoadCommandKind::Dylib { name } => {
                if let Some(n) = name {
                    if links_gui_framework(n.as_slice()) {
                        self.gui_like = true;
                    }
                }
            },
            _ => {},
        }
        if let Some(v) = version {
            self.versions.push(v);
        }
        if rec.cmd == LC_CODE_SIGNATURE {
            self.signed = true;
        }
        Ok(())
    }
}

/// The load command at `index` as the runner reads it: `None` past the last
/// one, `Some(None)` when it cannot be read.
pub open spec fn command_model_at(data: Seq<u8>, index: int) -> Option<Option<CommandModel>> {
    match macho_command_type_at(data, index) {
        None => None,
        Some(None) => Some(None),
        Some(Some(cmd)) => {
            let k = match macho_build_version_at(data, index) {
                Some(b) => (Some(b), None, None, None),
                None => match macho_version_min_at(data, index) {
                    Some(v) => (None, Some(v), None, None),
                    None => match macho_id_dylib_at(data, index) {
                        Some(n) => (None, None, Some(n), None),
                        None => match macho_dylib_at(data, index) {
                            Some(n) => (None, None, None, Some(n)),
                            None => (None, None, None, None),
                        },
                    },
                },
            };
            Some(Some((cmd, k)))
        },
    }
}

/// Reads what the runner uses of load command `index`.
fn read_kind(data: &[u8], index: usize) -> (res: LoadCommandKind)
    ensures
        well_formed_kind(res),
        macho_command_type_at(data@, index as int) matches Some(Some(cmd)) ==> command_model_at(
            data@,
            index as int,
        ) == Some(Some((cmd, kind_model(res)))),
{
    match read_build_version(data, index) {
        Some((platform, minos, sdk)) => LoadCommandKind::BuildVersion { platform, minos, sdk },
        None => match read_version_min(data, index) {
            Some((cmd, version, sdk)) => LoadCommandKind::VersionMin { cmd, version, sdk },
            None => match read_id_dylib(data, index) {
                Some(name) => LoadCommandKind::IdDylib { name },
                None => match read_dylib(data, index) {
                    Some(name) => LoadCommandKind::Dylib { name },
                    None => LoadCommandKind::Other,
                },
            },
        },
    }
}

/// Why scanning load commands stopped.
#[derive(Debug, Clone, Copy, PartialEq, Eq, Structural)]
pub enum ScanFailure {
    LoadCommand,
    IdDylibName,
}

/// Scans the load commands from `index` on, at most `fuel` of them.
pub open spec fn scan_commands(
    data: Seq<u8>,
    cputype: u32,
    index: nat,
    fuel: nat,
    s: ScanModel,
) -> Result<ScanModel, ScanFailure>
    decreases fuel,
{
    if fuel == 0 {
        Ok(s)
    } else {
        match command_model_at(data, index as int) {
            None => Ok(s),
            Some(None) => Err(ScanFailure::LoadCommand),
            Some(Some(c)) => match spec_step(s, c, cputype) {
                None => Err(ScanFailure::IdDylibName),
                Some(next) => scan_commands(data, cputype, index + 1, (fuel - 1) as nat, next),
            },
        }
    }
}

/// The section names the runner reads.
pub open spec fn info_plist_section() -> Seq<char> {
    "__info_plist"@
}

pub open spec fn entitlements_section() -> Seq<char> {
    "__entitlements"@
}

impl Binary {
    /// Reads a binary (the contents `data` of the file at `path`): its
    /// architecture, its build versions (`LC_BUILD_VERSION` and
    /// `LC_VERSION_MIN_*`), its `LC_ID_DYLIB` name, whether it is signed,
    /// whether it links a GUI framework, and its embedded `Info.plist` and
    /// entitlements.
    pub fn parse(path: String, data: &[u8]) -> (res: Result<Binary, BinaryError>)
        ensures
            match macho_header_of(data@) {
                None => res matches Err(BinaryError::Parse(_)),
                Some(None) => res matches Err(BinaryError::NotMachO),
                Some(Some(h)) => match scan_commands(data@, h.cputype, 0, (h.ncmds + 1) as nat, empty_scan()) {
                    Err(ScanFailure::LoadCommand) => res matches Err(BinaryError::LoadCommand(_)),
                    Err(ScanFailure::IdDylibName) => res matches Err(BinaryError::IdDylibName),
                    Ok(s) => match (
                        macho_section_of(data@, info_plist_section()),
                        macho_section_of(data@, entitlements_section()),
                    ) {
                        (Some(plist), Some(ents)) => res matches Ok(b) && b.path == path && b.arch == spec_arch_of_cputype(h.cputype) && b.versions@ == s.0 && opt_bytes(b.name)
                            == s.1 && b.signed == s.2 && b.gui_like == s.3 && opt_bytes(
                            b.info_plist_data,
                        ) == plist && opt_bytes(b.entitlements_data) == ents,
                        _ => res matches Err(BinaryError::Section(_)),
                    },
                },
            },
    {
        let header = match read_macho_header(data) {
            Err(e) => {
                return Err(BinaryError::Parse(e));
            },
            Ok(None) => {
                return Err(BinaryError::NotMachO);
            },
            Ok(Some(h)) => h,
        };
        let mut scan = LoadCommandScan::new();
        let last: usize = header.ncmds as usize;
        let mut index: usize = 0;
        let ghost goal = scan_commands(data@, header.cputype, 0, (header.ncmds + 1) as nat, empty_scan());
        loop
            invariant_except_break
                goal == scan_commands(
                    data@,
                    header.cputype,
                    index as nat,
                    (last + 1 - index) as nat,
                    scan.model(),
                ),
            invariant
                index <= last,
                last == header.ncmds,
                macho_header_of(data@) == Some(Some(header)),
                goal == scan_commands(data@, header.cputype, 0, (header.ncmds + 1) as nat, empty_scan()),
            ensures
                goal == Ok::<ScanModel, ScanFailure>(scan.model()),
            decreases last - index,
        {
            let cmd = match read_command_type(data, index) {
                None => {
                    break;
                },
                Some(Err(e)) => {
                    return Err(BinaryError::LoadCommand(e));
                },
                Some(Ok(c)) => c,
            };
            let kind = read_kind(data, index);
            let rec = LoadCommandRecord { cmd, kind };
            match scan.step(rec, header.cputype) {
                Err(e) => {
                    return Err(e);
                },
                Ok(()) => {},
            }
            if index == last {
                assert(goal == scan_commands(data@, header.cputype, (index + 1) as nat, 0, scan.model()));
                break;
            }
            index = index + 1;
        }
        let ghost s = scan.model();
        assert(goal == Ok::<ScanModel, ScanFailure>(s));
        let info_plist_data = match read_section(data, "__info_plist") {
            Err(e) => {
                return Err(BinaryError::Section(e));
            },
            Ok(d) => d,
        };
        let entitlements_data = match read_section(data, "__entitlements") {
            Err(e) => {
                return Err(BinaryError::Section(e));
            },
            Ok(d) => d,
        };
        let arch = arch_of_cputype(header.cputype);
        Ok(
            Binary {
                path,
                arch,
                name: scan.name,
                versions: scan.versions,
                info_plist_data,
                entitlements_data,
                signed: scan.signed,
                gui_like: scan.gui_like,
            },
        )
    }
}

/// Load command `k` is among those that a scan from `index` with `fuel`
/// reads: it and all commands before it (from `index` on) can be read.
pub open spec fn scanned(data: Seq<u8>, index: nat, fuel: nat, k: int) -> bool {
    &&& index <= k < index + fuel
    &&& forall|j: int| index <= j <= k ==> #[trigger] command_model_at(data, j) is Some && command_model_at(data, j)->0 is Some
}

/// A binary is GUI-like exactly when one of its load commands links a GUI
/// framework, and signed exactly when one of them is `LC_CODE_SIGNATURE`.
pub proof fn lemma_scan_flags(data: Seq<u8>, cputype: u32, index: nat, fuel: nat, s: ScanModel)
    requires
        scan_commands(data, cputype, index, fuel, s) is Ok,
    ensures
        ({
            let r = scan_commands(data, cputype, index, fuel, s)->Ok_0;
            &&& r.3 <==> (s.3 || exists|k: int|
                scanned(data, index, fuel, k) && command_links_gui(
                    #[trigger] command_model_at(data, k)->0->0,
                ))
            &&& r.2 <==> (s.2 || exists|k: int|
                scanned(data, index, fuel, k) && (#[trigger] command_model_at(data, k)->0->0).0
                    == 0x1d)
        }),
    decreases fuel,
{
    let r = scan_commands(data, cputype, index, fuel, s)->Ok_0;
    if fuel == 0 {
        assert(r == s);
    } else {
        match command_model_at(data, index as int) {
            None => {
                assert(r == s);
                assert forall|k: int| !scanned(data, index, fuel, k) by {
                    if scanned(data, index, fuel, k) {
                        assert(command_model_at(data, index as int) is Some);
                    }
                }
            },
            Some(None) => {},
            Some(Some(c)) => {
                let next = spec_step(s, c, cputype)->0;
                lemma_scan_flags(data, cputype, index + 1, (fuel - 1) as nat, next);
                assert forall|k: int|
                    scanned(data, index, fuel, k) implies k == index || scanned(
                        data,
                        index + 1,
                        (fuel - 1) as nat,
                        k,
                    ) by {}
                assert forall|k: int|
                    scanned(data, index + 1, (fuel - 1) as nat, k) implies scanned(
                        data,
                        index,
                        fuel,
                        k,
                    ) by {
                    assert forall|j: int| index <= j <= k implies #[trigger] command_model_at(data, j) is Some && command_model_at(data, j)->0 is Some by {
                        if j > index {
                            assert(index + 1 <= j <= k);
                        }
                    }
                }
                assert(scanned(data, index, fuel, index as int));
                let gui_here = exists|k: int|
                    scanned(data, index, fuel, k) && command_links_gui(
                        #[trigger] command_model_at(data, k)->0->0,
                    );
                let gui_rest = exists|k: int|
                    scanned(data, index + 1, (fuel - 1) as nat, k) && command_links_gui(
                        #[trigger] command_model_at(data, k)->0->0,
                    );
                let sig_here = exists|k: int|
                    scanned(data, index, fuel, k) && (#[trigger] command_model_at(data, k)->0->0).0
                        == 0x1d;
                let sig_rest = exists|k: int|
                    scanned(data, index + 1, (fuel - 1) as nat, k) && (
                    #[trigger] command_model_at(data, k)->0->0).0 == 0x1d;
                assert(gui_here == (command_links_gui(c) || gui_rest)) by {
                    if gui_here {
                        let k = choose|k: int|
                            scanned(data, index, fuel, k) && command_links_gui(
                                #[trigger] command_model_at(data, k)->0->0,
                            );
                        if k != index {
                            assert(scanned(data, index + 1, (fuel - 1) as nat, k));
                        }
                    }
                    if gui_rest {
                        let k = choose|k: int|
                            scanned(data, index + 1, (fuel - 1) as nat, k) && command_links_gui(
                                #[trigger] command_model_at(data, k)->0->0,
                            );
                        assert(scanned(data, index, fuel, k));
                    }
                }
                assert(sig_here == (c.0 == 0x1d || sig_rest)) by {
                    if sig_here {
                        let k = choose|k: int|
                            scanned(data, index, fuel, k) && (#[trigger] command_model_at(
                                data,
                                k,
                            )->0->0).0 == 0x1d;
                        if k != index {
                            assert(scanned(data, index + 1, (fuel - 1) as nat, k));
                        }
                    }
                    if sig_rest {
                        let k = choose|k: int|
                            scanned(data, index + 1, (fuel - 1) as nat, k) && (
                            #[trigger] command_model_at(data, k)->0->0).0 == 0x1d;
                        assert(scanned(data, index, fuel, k));
                    }
                }
            },
        }
    }
}

} // verus!
