//! What the runner decides from the output of `xcrun simctl`: which
//! runtimes and devices are usable, which device to run on, and which
//! environment variables to forward to the simulator.
//!
//! The simulator uses the host kernel: a process in the simulator has access
//! to the host file system, but frameworks come from the simulator runtime.
//! Binaries are either spawned as processes or launched as bundled apps.
use vstd::prelude::*;

use crate::platform::{
    arch_name, simulator_platform_name, spec_arch_name, spec_simulator_platform_name, Arch,
    Platform,
};
use crate::text::{
    chars_eq, chars_of, contains_chars, has_prefix, lex_lt, lex_order, occurs_in, push_str,
    starts_with, string_from_chars, Order3,
};
use crate::version::{parse_version, version_lt, OSVersion};

verus! {

/// Whether a runtime or device can be used, with the reason when not.
#[derive(Debug)]
pub enum Availability {
    Available,
    Unavailable(String),
}

/// The state of a simulator device.
#[derive(Debug, Clone, Copy, PartialEq, Eq, Structural, Hash)]
pub enum DeviceState {
    Creating,
    Booting,
    Booted,
    ShuttingDown,
    Shutdown,
    Unknown,
}

/// A simulator runtime, as `simctl list --json` describes it.
#[derive(Debug)]
pub struct Runtime {
    pub buildversion: String,
    pub name: String,
    pub identifier: String,
    pub version: String,
    pub availability: Availability,
    /// Not reported by Xcode 9.2; `false` there.
    pub is_internal: bool,
    /// Not reported by Xcode 9.2.
    pub platform: Option<String>,
    /// Not reported by Xcode 9.2.
    pub supported_architectures: Option<Vec<String>>,
}

/// A simulator device, as `simctl list --json` describes it.
#[derive(Debug)]
pub struct Device {
    pub name: String,
    /// Unique device ID (UUID).
    pub udid: String,
    pub state: DeviceState,
    pub availability: Availability,
    /// Not reported by Xcode 9.2.
    pub last_booted_at: Option<String>,
}

/// Why no device could be chosen.
#[derive(Debug, Clone, Copy, PartialEq, Eq, Structural)]
pub enum DeviceSelectionError {
    /// `simctl` lists no runtimes at all.
    NoRuntimes,
    /// All runtimes are unavailable or internal.
    NoAvailableRuntimes,
    /// No available runtime is for the binary's platform.
    NoPlatformRuntimes,
    /// No runtime for the platform runs the binary's architecture.
    NoArchitectureRuntimes,
    /// No runtime is new enough for the binary's minimum OS version.
    NoVersionRuntimes,
    /// The suitable runtimes have no devices.
    NoDevices,
    /// All devices of the suitable runtimes are unavailable.
    NoAvailableDevices,
    /// No available device is booted.
    NoBootedDevices,
}

/// Neither of the availability formats was present.
#[derive(Debug, Clone, Copy, PartialEq, Eq, Structural)]
pub enum AvailabilityError {
    MissingField,
}

impl Availability {
    pub open spec fn spec_is_available(self) -> bool {
        self is Available
    }

    pub fn is_available(&self) -> (res: bool)
        ensures
            res == self.spec_is_available(),
    {
        match self {
            Availability::Available => true,
            Availability::Unavailable(_) => false,
        }
    }

}

/// Reads availability from the fields that `simctl` reports.
///
/// Xcode 9.2 sets `availability` to `"(available)"` or to a message such as
/// `" (unavailable, xyz)"`. Newer Xcode sets `isAvailable`, and
/// `availabilityError` when the runtime or device is not available.
pub fn availability_from_fields(
    availability: Option<String>,
    is_available: Option<bool>,
    availability_error: Option<String>,
) -> (res: Result<Availability, AvailabilityError>)
    ensures
        match availability {
            Some(s) => if s@ == "(available)"@ {
                res matches Ok(Availability::Available)
            } else {
                res matches Ok(Availability::Unavailable(m)) && m == s
            },
            None => match is_available {
                Some(true) => res matches Ok(Availability::Available),
                Some(false) => match availability_error {
                    Some(e) => res matches Ok(Availability::Unavailable(m)) && m == e,
                    None => res matches Ok(Availability::Unavailable(m)) && m@.len() == 0,
                },
                None => res == Err::<Availability, AvailabilityError>(
                    AvailabilityError::MissingField,
                ),
            },
        },
{
    match availability {
        Some(s) => {
            let text = chars_of(s.as_str());
            let available = chars_of("(available)");
            if chars_eq(&text, &available) {
                Ok(Availability::Available)
            } else {
                Ok(Availability::Unavailable(s))
            }
        },
        None => match is_available {
            Some(true) => Ok(Availability::Available),
            Some(false) => match availability_error {
                Some(e) => Ok(Availability::Unavailable(e)),
                None => Ok(Availability::Unavailable(String::new())),
            },
            None => Err(AvailabilityError::MissingField),
        },
    }
}

/// Whether a runtime is for the platform `name`: its `platform` field when
/// present, else whether its identifier mentions the name.
pub open spec fn spec_is_platform(r: Runtime, name: Seq<char>) -> bool {
    match r.platform {
        Some(p) => p@ == name,
        None => occurs_in(r.identifier@, name),
    }
}

/// Runtimes that are available and not internal.
pub open spec fn runtime_usable(r: Runtime) -> bool {
    r.availability.spec_is_available() && !r.is_internal
}

/// Runtimes that list `arch` among their architectures, or list none.
pub open spec fn runtime_runs_arch(r: Runtime, arch: Seq<char>) -> bool {
    match r.supported_architectures {
        Some(archs) => exists|i: int| 0 <= i < archs@.len() && #[trigger] archs@[i]@ == arch,
        None => true,
    }
}

/// Runtimes whose version is at least `minos`; a version that cannot be read
/// keeps the runtime.
pub open spec fn runtime_runs_version(r: Runtime, minos: OSVersion) -> bool {
    match parse_version(r.version@) {
        Some(v) => !version_lt(v, minos),
        None => true,
    }
}

impl Runtime {
    /// Whether this runtime is for the platform `platform_name` (such as
    /// `"iOS"`).
    pub fn is_platform(&self, platform_name: &str) -> (res: bool)
        ensures
            res == spec_is_platform(*self, platform_name@),
    {
        let name = chars_of(platform_name);
        match &self.platform {
            Some(p) => {
                let pc = chars_of(p.as_str());
                chars_eq(&pc, &name)
            },
            None => {
                let id = chars_of(self.identifier.as_str());
                contains_chars(&id, &name)
            },
        }
    }

    fn is_usable(&self) -> (res: bool)
        ensures
            res == runtime_usable(*self),
    {
        self.availability.is_available() && !self.is_internal
    }

    fn runs_arch(&self, arch: &[char]) -> (res: bool)
        ensures
            res == runtime_runs_arch(*self, arch@),
    {
        match &self.supported_architectures {
            Some(archs) => {
                let mut i: usize = 0;
                while i < archs.len()
                    invariant
                        self.supported_architectures == Some(*archs),
                        i <= archs@.len(),
                        forall|k: int| 0 <= k < i ==> #[trigger] archs@[k]@ != arch@,
                    decreases archs.len() - i,
                {
                    let a = chars_of(archs[i].as_str());
                    if chars_eq(&a, arch) {
                        assert(archs@[i as int]@ == arch@);
                        assert(exists|k: int| 0 <= k < archs@.len() && #[trigger] archs@[k]@ == arch@);
                        assert(self.supported_architectures matches Some(v) && v == *archs);
                        assert(runtime_runs_arch(*self, arch@));
                        return true;
                    }
                    i = i + 1;
                }
                false
            },
            None => true,
        }
    }

    fn runs_version(&self, minos: &OSVersion) -> (res: bool)
        ensures
            res == runtime_runs_version(*self, *minos),
    {
        match OSVersion::parse(self.version.as_str()) {
            Ok(v) => minos.at_most(&v),
            Err(_) => true,
        }
    }
}

/// The devices that `table` lists under `key`: the first entry with that
/// key, if any.
pub open spec fn lookup(table: Seq<(String, Vec<Device>)>, key: Seq<char>) -> Option<Seq<Device>>
    decreases table.len(),
{
    if table.len() == 0 {
        None
    } else if table[0].0@ == key {
        Some(table[0].1@)
    } else {
        lookup(table.drop_first(), key)
    }
}

/// No key is listed twice, as in the `devices` map of `simctl list --json`.
pub open spec fn keys_distinct(table: Seq<(String, Vec<Device>)>) -> bool {
    forall|i: int, j: int|
        0 <= i < j < table.len() ==> #[trigger] table[i].0@ != #[trigger] table[j].0@
}

/// With distinct keys, `lookup` is a map lookup: it gives the devices listed
/// under a key that the table holds, and nothing for a key it does not hold.
pub proof fn lemma_lookup_is_map(table: Seq<(String, Vec<Device>)>, key: Seq<char>)
    requires
        keys_distinct(table),
    ensures
        forall|i: int| 0 <= i < table.len() && #[trigger] table[i].0@ == key ==> lookup(table, key)
            == Some(table[i].1@),
        (forall|i: int| 0 <= i < table.len() ==> #[trigger] table[i].0@ != key) ==> lookup(
            table,
            key,
        ) is None,
    decreases table.len(),
{
    if table.len() > 0 {
        let rest = table.drop_first();
        assert(keys_distinct(rest)) by {
            assert forall|i: int, j: int| 0 <= i < j < rest.len() implies #[trigger] rest[i].0@
                != #[trigger] rest[j].0@ by {
                assert(rest[i] == table[i + 1] && rest[j] == table[j + 1]);
            }
        }
        lemma_lookup_is_map(rest, key);
        assert forall|i: int| 0 <= i < table.len() && #[trigger] table[i].0@ == key implies lookup(
            table,
            key,
        ) == Some(table[i].1@) by {
            if i > 0 {
                assert(table[0].0@ != table[i].0@);
                assert(rest[i - 1] == table[i]);
            }
        }
        if forall|i: int| 0 <= i < table.len() ==> #[trigger] table[i].0@ != key {
            assert(table[0].0@ != key);
            assert forall|i: int| 0 <= i < rest.len() implies #[trigger] rest[i].0@ != key by {
                assert(rest[i] == table[i + 1]);
            }
        }
    }
}

/// The devices of a runtime: those listed under its identifier, else those
/// listed under its name.
pub open spec fn devices_of(table: Seq<(String, Vec<Device>)>, r: Runtime) -> Seq<Device> {
    match lookup(table, r.identifier@) {
        Some(ds) => ds,
        None => match lookup(table, r.name@) {
            Some(ds) => ds,
            None => Seq::empty(),
        },
    }
}

/// Each runtime paired with each of its devices, runtime by runtime.
pub open spec fn candidates(table: Seq<(String, Vec<Device>)>, rs: Seq<Runtime>) -> Seq<
    (Runtime, Device),
>
    decreases rs.len(),
{
    if rs.len() == 0 {
        Seq::empty()
    } else {
        candidates(table, rs.drop_last()) + devices_of(table, rs.last()).map_values(
            |d: Device| (rs.last(), d),
        )
    }
}

pub open spec fn device_available(p: (Runtime, Device)) -> bool {
    p.1.availability.spec_is_available()
}

pub open spec fn device_booted(p: (Runtime, Device)) -> bool {
    p.1.state == DeviceState::Booted
}

/// Devices booted more recently rank higher (dates are ISO 8601); a device
/// that was never booted ranks below every device that was.
pub open spec fn booted_order(a: Option<String>, b: Option<String>) -> Order3 {
    match (a, b) {
        (Some(x), Some(y)) => text_order(x@, y@),
        (Some(_), None) => Order3::Greater,
        (None, Some(_)) => Order3::Less,
        (None, None) => Order3::Equal,
    }
}

pub open spec fn text_order(a: Seq<char>, b: Seq<char>) -> Order3 {
    if lex_lt(a, b) {
        Order3::Less
    } else if a == b {
        Order3::Equal
    } else {
        Order3::Greater
    }
}

/// Runtimes with newer versions rank higher; versions that cannot both be
/// read tie.
pub open spec fn runtime_version_order(a: Seq<char>, b: Seq<char>) -> Order3 {
    match (parse_version(a), parse_version(b)) {
        (Some(x), Some(y)) => if version_lt(x, y) {
            Order3::Less
        } else if x == y {
            Order3::Equal
        } else {
            Order3::Greater
        },
        _ => Order3::Equal,
    }
}

pub open spec fn then(first: Order3, second: Order3) -> Order3 {
    if first == Order3::Equal {
        second
    } else {
        first
    }
}

/// How candidates rank: by last boot, then by runtime version, then by
/// device name.
pub open spec fn candidate_order(p: (Runtime, Device), q: (Runtime, Device)) -> Order3 {
    then(
        booted_order(p.1.last_booted_at, q.1.last_booted_at),
        then(runtime_version_order(p.0.version@, q.0.version@), text_order(p.1.name@, q.1.name@)),
    )
}

pub open spec fn candidate_lt(p: (Runtime, Device), q: (Runtime, Device)) -> bool {
    candidate_order(p, q) == Order3::Less
}

/// `ds[m]` is the first of the highest-ranked candidates: nothing ranks
/// above it, and everything listed before it ranks below it.
pub open spec fn is_first_greatest(ds: Seq<(Runtime, Device)>, m: int) -> bool {
    &&& 0 <= m < ds.len()
    &&& forall|j: int| 0 <= j < ds.len() ==> !candidate_lt(ds[m], #[trigger] ds[j])
    &&& forall|j: int| 0 <= j < m ==> candidate_lt(#[trigger] ds[j], ds[m])
}

/// `p` was booted at least as recently as every candidate in `ds`.
pub open spec fn booted_latest(ds: Seq<(Runtime, Device)>, p: (Runtime, Device)) -> bool {
    forall|j: int|
        0 <= j < ds.len() ==> booted_order(p.1.last_booted_at, #[trigger] ds[j].1.last_booted_at)
            != Order3::Less
}

/// All candidates have runtime versions that can be read; then the sort
/// order is a total preorder, and the first candidate is well defined.
pub open spec fn versions_readable(ds: Seq<(Runtime, Device)>) -> bool {
    forall|i: int| 0 <= i < ds.len() ==> #[trigger] parse_version(ds[i].0.version@) is Some
}

/// The stages of the device choice: which runtimes and candidates are left
/// after each filter, or the error of the first filter that leaves none.
pub open spec fn spec_choice(
    runtimes: Seq<Runtime>,
    table: Seq<(String, Vec<Device>)>,
    platform: Platform,
    arch: Arch,
    minos: OSVersion,
) -> Result<Seq<(Runtime, Device)>, DeviceSelectionError> {
    let name = spec_simulator_platform_name(platform);
    let arch_name = spec_arch_name(arch);
    let r1 = runtimes.filter(|r: Runtime| runtime_usable(r));
    let r2 = r1.filter(|r: Runtime| spec_is_platform(r, name));
    let r3 = r2.filter(|r: Runtime| runtime_runs_arch(r, arch_name));
    let r4 = r3.filter(|r: Runtime| runtime_runs_version(r, minos));
    let c1 = candidates(table, r4);
    let c2 = c1.filter(|p: (Runtime, Device)| device_available(p));
    let c3 = c2.filter(|p: (Runtime, Device)| device_booted(p));
    if runtimes.len() == 0 {
        Err(DeviceSelectionError::NoRuntimes)
    } else if r1.len() == 0 {
        Err(DeviceSelectionError::NoAvailableRuntimes)
    } else if r2.len() == 0 {
        Err(DeviceSelectionError::NoPlatformRuntimes)
    } else if r3.len() == 0 {
        Err(DeviceSelectionError::NoArchitectureRuntimes)
    } else if r4.len() == 0 {
        Err(DeviceSelectionError::NoVersionRuntimes)
    } else if c1.len() == 0 {
        Err(DeviceSelectionError::NoDevices)
    } else if c2.len() == 0 {
        Err(DeviceSelectionError::NoAvailableDevices)
    } else if c3.len() == 0 {
        Err(DeviceSelectionError::NoBootedDevices)
    } else {
        Ok(c3)
    }
}

proof fn lemma_filter_step<A>(s: Seq<A>, p: spec_fn(A) -> bool, i: int)
    requires
        0 <= i < s.len(),
    ensures
        s.take(i + 1).filter(p) == (if p(s[i]) {
            s.take(i).filter(p).push(s[i])
        } else {
            s.take(i).filter(p)
        }),
{
    reveal(Seq::filter);
    assert(s.take(i + 1).drop_last() =~= s.take(i));
}

/// The runtimes that `idx` points at.
pub open spec fn pick(rs: Seq<Runtime>, idx: Seq<usize>) -> Seq<Runtime> {
    idx.map_values(|k: usize| rs[k as int])
}

pub open spec fn in_bounds(idx: Seq<usize>, n: int) -> bool {
    forall|t: int| 0 <= t < idx.len() ==> #[trigger] idx[t] < n
}

/// The stage of runtime filtering that `keep_runtimes` performs.
#[derive(Debug, Clone, Copy, PartialEq, Eq, Structural)]
pub enum RuntimeFilter {
    Usable,
    Platform,
    Arch,
    Version,
}

pub open spec fn runtime_filter_holds(
    filter: RuntimeFilter,
    r: Runtime,
    name: Seq<char>,
    arch: Seq<char>,
    minos: OSVersion,
) -> bool {
    match filter {
        RuntimeFilter::Usable => runtime_usable(r),
        RuntimeFilter::Platform => spec_is_platform(r, name),
        RuntimeFilter::Arch => runtime_runs_arch(r, arch),
        RuntimeFilter::Version => runtime_runs_version(r, minos),
    }
}

/// Keeps the runtimes that `idx` points at and that pass `filter`.
fn keep_runtimes(
    rs: &Vec<Runtime>,
    idx: &Vec<usize>,
    filter: RuntimeFilter,
    name: &str,
    arch: &[char],
    minos: &OSVersion,
) -> (res: Vec<usize>)
    requires
        in_bounds(idx@, rs@.len() as int),
    ensures
        in_bounds(res@, rs@.len() as int),
        pick(rs@, res@) == pick(rs@, idx@).filter(
            |r: Runtime| runtime_filter_holds(filter, r, name@, arch@, *minos),
        ),
{
    let ghost p = |r: Runtime| runtime_filter_holds(filter, r, name@, arch@, *minos);
    let ghost s = pick(rs@, idx@);
    let mut res: Vec<usize> = Vec::new();
    let mut t: usize = 0;
    while t < idx.len()
        invariant
            t <= idx@.len(),
            in_bounds(idx@, rs@.len() as int),
            in_bounds(res@, rs@.len() as int),
            s == pick(rs@, idx@),
            p == (|r: Runtime| runtime_filter_holds(filter, r, name@, arch@, *minos)),
            pick(rs@, res@) == s.take(t as int).filter(p),
        decreases idx.len() - t,
    {
        proof {
            lemma_filter_step(s, p, t as int);
        }
        let k = idx[t];
        assert(k < rs@.len());
        let r = &rs[k];
        assert(s[t as int] == *r);
        let keep = match filter {
            RuntimeFilter::Usable => r.is_usable(),
            RuntimeFilter::Platform => r.is_platform(name),
            RuntimeFilter::Arch => r.runs_arch(arch),
            RuntimeFilter::Version => r.runs_version(minos),
        };
        assert(p(s[t as int]) == keep);
        let ghost before = res@;
        if keep {
            res.push(k);
            assert(pick(rs@, res@) =~= pick(rs@, before).push(*r));
        }
        t = t + 1;
    }
    assert(s.take(idx@.len() as int) =~= s);
    res
}

/// A candidate: a runtime index, a table entry index and a device index in
/// that entry.
pub type Slot = (usize, usize, usize);

pub open spec fn slot_value(
    rs: Seq<Runtime>,
    table: Seq<(String, Vec<Device>)>,
    s: Slot,
) -> (Runtime, Device) {
    (rs[s.0 as int], table[s.1 as int].1@[s.2 as int])
}

pub open spec fn slots_value(
    rs: Seq<Runtime>,
    table: Seq<(String, Vec<Device>)>,
    slots: Seq<Slot>,
) -> Seq<(Runtime, Device)> {
    slots.map_values(|s: Slot| slot_value(rs, table, s))
}

pub open spec fn slots_valid(
    rs: Seq<Runtime>,
    table: Seq<(String, Vec<Device>)>,
    slots: Seq<Slot>,
) -> bool {
    forall|t: int|
        0 <= t < slots.len() ==> {
            let s = #[trigger] slots[t];
            &&& s.0 < rs.len()
            &&& s.1 < table.len()
            &&& s.2 < table[s.1 as int].1@.len()
        }
}

/// The index of the first entry of `table` with key `key`.
fn find_entry(table: &Vec<(String, Vec<Device>)>, key: &String) -> (res: Option<usize>)
    ensures
        match lookup(table@, key@) {
            Some(ds) => res matches Some(i) && i < table@.len() && table@[i as int].1@ == ds,
            None => res is None,
        },
{
    let kc = chars_of(key.as_str());
    let mut i: usize = 0;
    assert(table@.skip(0) =~= table@);
    while i < table.len()
        invariant
            i <= table@.len(),
            kc@ == key@,
            lookup(table@, key@) == lookup(table@.skip(i as int), key@),
        decreases table.len() - i,
    {
        let ec = chars_of(table[i].0.as_str());
        assert(table@.skip(i as int)[0] == table@[i as int]);
        if chars_eq(&ec, &kc) {
            return Some(i);
        }
        assert(table@.skip(i as int).drop_first() =~= table@.skip(i + 1));
        i = i + 1;
    }
    None
}

/// Pairs each runtime that `idx` points at with each of its devices.
fn collect_candidates(
    rs: &Vec<Runtime>,
    table: &Vec<(String, Vec<Device>)>,
    idx: &Vec<usize>,
) -> (res: Vec<Slot>)
    requires
        in_bounds(idx@, rs@.len() as int),
    ensures
        slots_valid(rs@, table@, res@),
        slots_value(rs@, table@, res@) == candidates(table@, pick(rs@, idx@)),
{
    let ghost sel = pick(rs@, idx@);
    let mut res: Vec<Slot> = Vec::new();
    let mut t: usize = 0;
    while t < idx.len()
        invariant
            t <= idx@.len(),
            in_bounds(idx@, rs@.len() as int),
            sel == pick(rs@, idx@),
            slots_valid(rs@, table@, res@),
            slots_value(rs@, table@, res@) == candidates(table@, sel.take(t as int)),
        decreases idx.len() - t,
    {
        let ri = idx[t];
        assert(ri < rs@.len());
        let r = &rs[ri];
        assert(sel[t as int] == *r);
        let entry = match find_entry(table, &r.identifier) {
            Some(k) => Some(k),
            None => find_entry(table, &r.name),
        };
        let ghost before = res@;
        let ghost ds = devices_of(table@, *r);
        let ghost f = |d: Device| (*r, d);
        match entry {
            Some(k) => {
                let n = table[k].1.len();
                assert(table@[k as int].1@ == ds);
                let mut j: usize = 0;
                while j < n
                    invariant
                        j <= n,
                        k < table@.len(),
                        ri < rs@.len(),
                        n == table@[k as int].1@.len(),
                        table@[k as int].1@ == ds,
                        rs@[ri as int] == *r,
                        f == (|d: Device| (*r, d)),
                        slots_valid(rs@, table@, res@),
                        slots_value(rs@, table@, res@) == slots_value(rs@, table@, before)
                            + ds.take(j as int).map_values(f),
                    decreases n - j,
                {
                    let ghost prev = res@;
                    res.push((ri, k, j));
                    assert(slots_value(rs@, table@, res@) =~= slots_value(rs@, table@, prev).push(
                        (*r, ds[j as int]),
                    ));
                    assert(ds.take(j + 1).map_values(f) =~= ds.take(j as int).map_values(f).push(
                        (*r, ds[j as int]),
                    ));
                    j = j + 1;
                }
                assert(ds.take(ds.len() as int) =~= ds);
            },
            None => {
                assert(ds =~= Seq::<Device>::empty());
            },
        }
        assert(ds.map_values(f) =~= ds.map_values(|d: Device| (sel.take(t + 1).last(), d)));
        assert(sel.take(t + 1).drop_last() =~= sel.take(t as int));
        t = t + 1;
    }
    assert(sel.take(idx@.len() as int) =~= sel);
    res
}

/// Keeps the candidates whose device is available (`booted` false) or
/// booted (`booted` true).
fn keep_devices(
    rs: &Vec<Runtime>,
    table: &Vec<(String, Vec<Device>)>,
    slots: &Vec<Slot>,
    booted: bool,
) -> (res: Vec<Slot>)
    requires
        slots_valid(rs@, table@, slots@),
    ensures
        slots_valid(rs@, table@, res@),
        booted ==> slots_value(rs@, table@, res@) == slots_value(rs@, table@, slots@).filter(
            |p: (Runtime, Device)| device_booted(p),
        ),
        !booted ==> slots_value(rs@, table@, res@) == slots_value(rs@, table@, slots@).filter(
            |p: (Runtime, Device)| device_available(p),
        ),
{
    let ghost p: spec_fn((Runtime, Device)) -> bool = if booted {
        |p: (Runtime, Device)| device_booted(p)
    } else {
        |p: (Runtime, Device)| device_available(p)
    };
    let ghost s = slots_value(rs@, table@, slots@);
    let mut res: Vec<Slot> = Vec::new();
    let mut t: usize = 0;
    while t < slots.len()
        invariant
            t <= slots@.len(),
            slots_valid(rs@, table@, slots@),
            slots_valid(rs@, table@, res@),
            s == slots_value(rs@, table@, slots@),
            p == (if booted {
                |p: (Runtime, Device)| device_booted(p)
            } else {
                |p: (Runtime, Device)| device_available(p)
            }),
            slots_value(rs@, table@, res@) == s.take(t as int).filter(p),
        decreases slots.len() - t,
    {
        proof {
            lemma_filter_step(s, p, t as int);
        }
        let slot = slots[t];
        assert(slots@[t as int] == slot);
        let d = &table[slot.1].1[slot.2];
        assert(s[t as int].1 == *d);
        let keep = if booted {
            d.state == DeviceState::Booted
        } else {
            d.availability.is_available()
        };
        assert(p(s[t as int]) == keep);
        let ghost before = res@;
        if keep {
            res.push(slot);
            assert(slots_value(rs@, table@, res@) =~= slots_value(rs@, table@, before).push(s[t as int]));
        }
        t = t + 1;
    }
    assert(s.take(slots@.len() as int) =~= s);
    res
}

fn text_order_of(a: &String, b: &String) -> (res: Order3)
    ensures
        res == text_order(a@, b@),
{
    let ac = chars_of(a.as_str());
    let bc = chars_of(b.as_str());
    lex_order(&ac, &bc)
}

/// Compares two candidates by `candidate_order`.
fn order_candidates(pr: &Runtime, pd: &Device, qr: &Runtime, qd: &Device) -> (res: Order3)
    ensures
        res == candidate_order((*pr, *pd), (*qr, *qd)),
{
    let booted = match (&pd.last_booted_at, &qd.last_booted_at) {
        (Some(a), Some(b)) => text_order_of(a, b),
        (Some(_), None) => Order3::Greater,
        (None, Some(_)) => Order3::Less,
        (None, None) => Order3::Equal,
    };
    if booted != Order3::Equal {
        return booted;
    }
    let pv = OSVersion::parse(pr.version.as_str());
    let qv = OSVersion::parse(qr.version.as_str());
    let version = match (pv, qv) {
        (Ok(a), Ok(b)) => if a.precedes(&b) {
            Order3::Less
        } else if a == b {
            Order3::Equal
        } else {
            Order3::Greater
        },
        _ => Order3::Equal,
    };
    if version != Order3::Equal {
        return version;
    }
    text_order_of(&pd.name, &qd.name)
}

proof fn lemma_text_order(x: Seq<char>, y: Seq<char>)
    ensures
        text_order(x, y) == Order3::Less <==> lex_lt(x, y),
        text_order(x, y) == Order3::Greater <==> lex_lt(y, x),
        text_order(x, y) == Order3::Equal <==> x == y,
{
    crate::text::lemma_lex_total(x, y);
    crate::text::lemma_lex_irreflexive(x);
    if lex_lt(x, y) && lex_lt(y, x) {
        crate::text::lemma_lex_transitive(x, y, x);
    }
}

/// With readable runtime versions, `candidate_lt` is a strict weak order:
/// irreflexive, transitive, and "not after" is transitive too.
proof fn lemma_candidate_order(a: (Runtime, Device), b: (Runtime, Device), c: (Runtime, Device))
    requires
        parse_version(a.0.version@) is Some,
        parse_version(b.0.version@) is Some,
        parse_version(c.0.version@) is Some,
    ensures
        !candidate_lt(a, a),
        candidate_lt(a, b) && candidate_lt(b, c) ==> candidate_lt(a, c),
        candidate_lt(a, b) && !candidate_lt(c, b) ==> candidate_lt(a, c),
{
    let (na, nb, nc) = (a.1.name@, b.1.name@, c.1.name@);
    lemma_text_order(na, na);
    lemma_text_order(na, nb);
    lemma_text_order(nb, na);
    lemma_text_order(nb, nc);
    lemma_text_order(nc, nb);
    lemma_text_order(na, nc);
    lemma_text_order(nc, na);
    if lex_lt(na, nb) && lex_lt(nb, nc) {
        crate::text::lemma_lex_transitive(na, nb, nc);
    }
    if lex_lt(nb, nc) && lex_lt(nc, na) {
        crate::text::lemma_lex_transitive(nb, nc, na);
    }
    if lex_lt(nc, na) && lex_lt(na, nb) {
        crate::text::lemma_lex_transitive(nc, na, nb);
    }
    let (va, vb, vc) = (
        parse_version(a.0.version@)->0,
        parse_version(b.0.version@)->0,
        parse_version(c.0.version@)->0,
    );
    crate::version::lemma_version_order(va, vb, vc);
    crate::version::lemma_version_order(vb, vc, va);
    crate::version::lemma_version_order(vc, va, vb);
    crate::version::lemma_version_order(va, vc, vb);
    crate::version::lemma_version_order(vb, va, vc);
    crate::version::lemma_version_order(vc, vb, va);
    match (a.1.last_booted_at, b.1.last_booted_at, c.1.last_booted_at) {
        (Some(x), Some(y), Some(z)) => {
            let (x, y, z) = (x@, y@, z@);
            lemma_text_order(x, x);
            lemma_text_order(x, y);
            lemma_text_order(y, x);
            lemma_text_order(y, z);
            lemma_text_order(z, y);
            lemma_text_order(x, z);
            lemma_text_order(z, x);
            if lex_lt(x, y) && lex_lt(y, z) {
                crate::text::lemma_lex_transitive(x, y, z);
            }
            if lex_lt(y, z) && lex_lt(z, x) {
                crate::text::lemma_lex_transitive(y, z, x);
            }
            if lex_lt(z, x) && lex_lt(x, y) {
                crate::text::lemma_lex_transitive(z, x, y);
            }
        },
        (Some(x), Some(y), None) => {
            lemma_text_order(x@, x@);
            lemma_text_order(x@, y@);
            lemma_text_order(y@, x@);
        },
        (Some(x), None, Some(z)) => {
            lemma_text_order(x@, x@);
            lemma_text_order(x@, z@);
            lemma_text_order(z@, x@);
        },
        (None, Some(y), Some(z)) => {
            lemma_text_order(y@, z@);
            lemma_text_order(z@, y@);
        },
        (Some(x), None, None) => {
            lemma_text_order(x@, x@);
        },
        _ => {},
    }
}

/// The chosen device was booted most recently, and among devices booted at
/// the same time, none has a newer runtime (of those whose versions can be
/// read).
pub proof fn lemma_choice_most_recent(cs: Seq<(Runtime, Device)>, m: int)
    requires
        is_first_greatest(cs, m),
    ensures
        booted_latest(cs, cs[m]),
        forall|j: int|
            0 <= j < cs.len() && booted_order(cs[m].1.last_booted_at, #[trigger] cs[j].1.last_booted_at)
                == Order3::Equal && parse_version(cs[m].0.version@) is Some && parse_version(
                cs[j].0.version@,
            ) is Some ==> !version_lt(
                parse_version(cs[m].0.version@)->0,
                parse_version(cs[j].0.version@)->0,
            ),
{
    assert forall|j: int| 0 <= j < cs.len() implies booted_order(
        cs[m].1.last_booted_at,
        #[trigger] cs[j].1.last_booted_at,
    ) != Order3::Less by {
        assert(!candidate_lt(cs[m], cs[j]));
    }
    assert forall|j: int|
        0 <= j < cs.len() && booted_order(cs[m].1.last_booted_at, #[trigger] cs[j].1.last_booted_at)
            == Order3::Equal && parse_version(cs[m].0.version@) is Some && parse_version(
            cs[j].0.version@,
        ) is Some implies !version_lt(
        parse_version(cs[m].0.version@)->0,
        parse_version(cs[j].0.version@)->0,
    ) by {
        assert(!candidate_lt(cs[m], cs[j]));
    }
}

/// The order by last boot is a total preorder: it is antisymmetric, and
/// "not above" is transitive.
proof fn lemma_booted_order(a: Option<String>, b: Option<String>, c: Option<String>)
    ensures
        booted_order(a, b) == Order3::Greater <==> booted_order(b, a) == Order3::Less,
        booted_order(a, a) == Order3::Equal,
        booted_order(a, b) != Order3::Greater && booted_order(b, c) != Order3::Greater
            ==> booted_order(a, c) != Order3::Greater,
{
    match (a, b, c) {
        (Some(x), Some(y), Some(z)) => {
            let (x, y, z) = (x@, y@, z@);
            lemma_text_order(x, x);
            lemma_text_order(x, y);
            lemma_text_order(y, x);
            lemma_text_order(y, z);
            lemma_text_order(z, y);
            lemma_text_order(x, z);
            lemma_text_order(z, x);
            if lex_lt(x, y) && lex_lt(y, z) {
                crate::text::lemma_lex_transitive(x, y, z);
            }
            if lex_lt(y, z) && lex_lt(z, x) {
                crate::text::lemma_lex_transitive(y, z, x);
            }
            if lex_lt(z, x) && lex_lt(x, y) {
                crate::text::lemma_lex_transitive(z, x, y);
            }
        },
        (Some(x), Some(y), None) => {
            lemma_text_order(x@, x@);
            lemma_text_order(x@, y@);
            lemma_text_order(y@, x@);
        },
        (Some(x), None, Some(z)) => {
            lemma_text_order(x@, x@);
            lemma_text_order(x@, z@);
            lemma_text_order(z@, x@);
        },
        (None, Some(y), Some(z)) => {
            lemma_text_order(y@, z@);
            lemma_text_order(z@, y@);
        },
        (Some(x), None, None) => {
            lemma_text_order(x@, x@);
        },
        _ => {},
    }
}

/// The index of the first of the highest-ranked candidates.
fn first_greatest(rs: &Vec<Runtime>, table: &Vec<(String, Vec<Device>)>, slots: &Vec<Slot>) -> (m: usize)
    requires
        slots@.len() > 0,
        slots_valid(rs@, table@, slots@),
    ensures
        m < slots@.len(),
        booted_latest(slots_value(rs@, table@, slots@), slots_value(rs@, table@, slots@)[m as int]),
        versions_readable(slots_value(rs@, table@, slots@)) ==> is_first_greatest(
            slots_value(rs@, table@, slots@),
            m as int,
        ),
{
    let ghost vals = slots_value(rs@, table@, slots@);
    let mut best: usize = 0;
    let mut i: usize = 1;
    proof {
        lemma_booted_order(
            vals[0].1.last_booted_at,
            vals[0].1.last_booted_at,
            vals[0].1.last_booted_at,
        );
        if versions_readable(vals) {
            lemma_candidate_order(vals[0], vals[0], vals[0]);
        }
    }
    while i < slots.len()
        invariant
            1 <= i <= slots@.len(),
            best < i,
            slots_valid(rs@, table@, slots@),
            vals == slots_value(rs@, table@, slots@),
            forall|j: int|
                0 <= j < i ==> booted_order(
                    vals[best as int].1.last_booted_at,
                    #[trigger] vals[j].1.last_booted_at,
                ) != Order3::Less,
            versions_readable(vals) ==> forall|j: int|
                0 <= j < i ==> !candidate_lt(vals[best as int], #[trigger] vals[j]),
            versions_readable(vals) ==> forall|j: int|
                0 <= j < best ==> candidate_lt(#[trigger] vals[j], vals[best as int]),
        decreases slots.len() - i,
    {
        let si = slots[i];
        let sb = slots[best];
        assert(slots@[i as int] == si && slots@[best as int] == sb);
        let o = order_candidates(&rs[sb.0], &table[sb.1].1[sb.2], &rs[si.0], &table[si.1].1[si.2]);
        assert(vals[i as int] == (rs@[si.0 as int], table@[si.1 as int].1@[si.2 as int]));
        assert(vals[best as int] == (rs@[sb.0 as int], table@[sb.1 as int].1@[sb.2 as int]));
        if o == Order3::Less {
            proof {
                assert forall|j: int| 0 <= j < i + 1 implies booted_order(
                    vals[i as int].1.last_booted_at,
                    #[trigger] vals[j].1.last_booted_at,
                ) != Order3::Less by {
                    lemma_booted_order(
                        vals[j].1.last_booted_at,
                        vals[best as int].1.last_booted_at,
                        vals[i as int].1.last_booted_at,
                    );
                    lemma_booted_order(
                        vals[j].1.last_booted_at,
                        vals[i as int].1.last_booted_at,
                        vals[i as int].1.last_booted_at,
                    );
                    lemma_booted_order(
                        vals[i as int].1.last_booted_at,
                        vals[i as int].1.last_booted_at,
                        vals[i as int].1.last_booted_at,
                    );
                }
                if versions_readable(vals) {
                    assert forall|j: int| 0 <= j < i + 1 implies !candidate_lt(
                        vals[i as int],
                        #[trigger] vals[j],
                    ) by {
                        lemma_candidate_order(vals[best as int], vals[i as int], vals[j]);
                        lemma_candidate_order(vals[i as int], vals[i as int], vals[i as int]);
                    }
                    assert forall|j: int| 0 <= j < i implies candidate_lt(
                        #[trigger] vals[j],
                        vals[i as int],
                    ) by {
                        lemma_candidate_order(vals[best as int], vals[i as int], vals[j]);
                    }
                }
            }
            best = i;
        }
        i = i + 1;
    }
    best
}

/// Chooses the simulator device to run a binary for `platform` (a
/// simulator platform), `arch` and `minos` on.
///
/// Runtimes must be available and not internal, be for the platform, run
/// the architecture and be at least as new as `minos`. Devices of those
/// runtimes (looked up under the runtime's identifier, else under its name)
/// must be available and booted. Of those, the most relevant is chosen:
/// the most recently booted (a device booted before ranks above one never
/// booted), then the one with the newest runtime, then the greatest name;
/// among equals, the first listed. Each filter that leaves nothing gives its
/// own error.
pub fn select_device(
    runtimes: Vec<Runtime>,
    table: Vec<(String, Vec<Device>)>,
    platform: Platform,
    arch: Arch,
    minos: OSVersion,
) -> (res: Result<(Runtime, Device), DeviceSelectionError>)
    requires
        platform.spec_is_simulator(),
    ensures
        match spec_choice(runtimes@, table@, platform, arch, minos) {
            Err(e) => res == Err::<(Runtime, Device), DeviceSelectionError>(e),
            Ok(cs) => res matches Ok(pair) && cs.contains(pair) && booted_latest(cs, pair) && (
            versions_readable(cs) ==> exists|m: int| is_first_greatest(cs, m) && cs[m] == pair),
        },
        res matches Ok(pair) ==> pair.1.state == DeviceState::Booted
            && pair.1.availability is Available && pair.0.availability is Available
            && !pair.0.is_internal,
{
    let name = simulator_platform_name(platform);
    let arch_text = chars_of(arch_name(arch));
    let n = runtimes.len();
    let mut all: Vec<usize> = Vec::new();
    let mut k: usize = 0;
    while k < n
        invariant
            k <= n,
            n == runtimes@.len(),
            all@ =~= Seq::new(k as nat, |i: int| i as usize),
        decreases n - k,
    {
        all.push(k);
        k = k + 1;
    }
    assert(pick(runtimes@, all@) =~= runtimes@);
    let ghost sname = spec_simulator_platform_name(platform);
    let ghost sarch = spec_arch_name(arch);
    assert((|r: Runtime| runtime_filter_holds(RuntimeFilter::Usable, r, name@, arch_text@, minos))
        =~= (|r: Runtime| runtime_usable(r)));
    assert((|r: Runtime| runtime_filter_holds(RuntimeFilter::Platform, r, name@, arch_text@, minos))
        =~= (|r: Runtime| spec_is_platform(r, sname)));
    assert((|r: Runtime| runtime_filter_holds(RuntimeFilter::Arch, r, name@, arch_text@, minos))
        =~= (|r: Runtime| runtime_runs_arch(r, sarch)));
    assert((|r: Runtime| runtime_filter_holds(RuntimeFilter::Version, r, name@, arch_text@, minos))
        =~= (|r: Runtime| runtime_runs_version(r, minos)));
    if n == 0 {
        return Err(DeviceSelectionError::NoRuntimes);
    }
    let r1 = keep_runtimes(&runtimes, &all, RuntimeFilter::Usable, name, &arch_text, &minos);
    if r1.len() == 0 {
        return Err(DeviceSelectionError::NoAvailableRuntimes);
    }
    let r2 = keep_runtimes(&runtimes, &r1, RuntimeFilter::Platform, name, &arch_text, &minos);
    if r2.len() == 0 {
        return Err(DeviceSelectionError::NoPlatformRuntimes);
    }
    let r3 = keep_runtimes(&runtimes, &r2, RuntimeFilter::Arch, name, &arch_text, &minos);
    if r3.len() == 0 {
        return Err(DeviceSelectionError::NoArchitectureRuntimes);
    }
    let r4 = keep_runtimes(&runtimes, &r3, RuntimeFilter::Version, name, &arch_text, &minos);
    if r4.len() == 0 {
        return Err(DeviceSelectionError::NoVersionRuntimes);
    }
    let c1 = collect_candidates(&runtimes, &table, &r4);
    if c1.len() == 0 {
        return Err(DeviceSelectionError::NoDevices);
    }
    let c2 = keep_devices(&runtimes, &table, &c1, false);
    if c2.len() == 0 {
        return Err(DeviceSelectionError::NoAvailableDevices);
    }
    let c3 = keep_devices(&runtimes, &table, &c2, true);
    if c3.len() == 0 {
        return Err(DeviceSelectionError::NoBootedDevices);
    }
    let m = first_greatest(&runtimes, &table, &c3);
    let slot = c3[m];
    let ghost cs = slots_value(runtimes@, table@, c3@);
    let ghost chosen = cs[m as int];
    assert(c3@[m as int] == slot);
    assert(chosen == (runtimes@[slot.0 as int], table@[slot.1 as int].1@[slot.2 as int]));
    assert(cs.contains(chosen));
    proof {
        lemma_choice_suitable(runtimes@, table@, platform, arch, minos, chosen);
    }
    let mut runtimes = runtimes;
    let mut table = table;
    let runtime = runtimes.swap_remove(slot.0);
    let (_, mut devices) = table.swap_remove(slot.1);
    let device = devices.swap_remove(slot.2);
    Ok((runtime, device))
}

/// The environment variables forwarded to the simulated process: all
/// `CARGO_PKG_*` ones, and `CARGO_CRATE_NAME`, `CARGO_BIN_NAME` and
/// `CARGO_PRIMARY_PACKAGE`. Directory variables such as `CARGO_MANIFEST_DIR`
/// are not: they need not be readable there (protected folders such as
/// `~/Documents`).
pub open spec fn is_forwarded_key(key: Seq<char>) -> bool {
    starts_with(key, "CARGO_PKG_"@) || key == "CARGO_CRATE_NAME"@ || key == "CARGO_BIN_NAME"@
        || key == "CARGO_PRIMARY_PACKAGE"@
}

/// The prefix that makes `simctl` pass a variable on to the child process.
pub open spec fn child_prefix() -> Seq<char> {
    "SIMCTL_CHILD_"@
}

/// The name under which the variable `key` is handed to `xcrun simctl`, if
/// it is forwarded.
pub fn forwarded_env_name(key: &str) -> (res: Option<String>)
    ensures
        is_forwarded_key(key@) ==> (res matches Some(n) && n@ == child_prefix() + key@),
        !is_forwarded_key(key@) ==> res is None,
{
    let k = chars_of(key);
    let pkg = chars_of("CARGO_PKG_");
    let crate_name = chars_of("CARGO_CRATE_NAME");
    let bin_name = chars_of("CARGO_BIN_NAME");
    let primary = chars_of("CARGO_PRIMARY_PACKAGE");
    if has_prefix(&k, &pkg) || chars_eq(&k, &crate_name) || chars_eq(&k, &bin_name) || chars_eq(
        &k,
        &primary,
    ) {
        let mut out: Vec<char> = Vec::new();
        push_str(&mut out, "SIMCTL_CHILD_");
        push_str(&mut out, key);
        Some(string_from_chars(&out))
    } else {
        None
    }
}

/// Different forwarded variables keep different names.
pub proof fn lemma_forwarded_names_distinct(a: Seq<char>, b: Seq<char>)
    requires
        child_prefix() + a == child_prefix() + b,
    ensures
        a == b,
{
    let n = child_prefix().len() as int;
    assert(a =~= (child_prefix() + a).skip(n));
    assert(b =~= (child_prefix() + b).skip(n));
}

/// `simctl getenv` output without its final newline (at most one is
/// removed).
pub fn strip_trailing_newline(output: &[u8]) -> (res: Vec<u8>)
    ensures
        res@ == (if output@.len() > 0 && output@.last() == 10u8 {
            output@.drop_last()
        } else {
            output@
        }),
{
    let n = output.len();
    let end = if n > 0 && output[n - 1] == 10u8 {
        n - 1
    } else {
        n
    };
    let mut res: Vec<u8> = Vec::new();
    let mut i: usize = 0;
    while i < end
        invariant
            end <= n,
            n == output@.len(),
            i <= end,
            res@ =~= output@.take(i as int),
        decreases end - i,
    {
        res.push(output[i]);
        i = i + 1;
    }
    assert(output@.take(end as int) =~= (if output@.len() > 0 && output@.last() == 10u8 {
        output@.drop_last()
    } else {
        output@
    }));
    res
}

/// Every device that the choice can give is available and booted, and its
/// runtime is available, not internal, for the platform, runs the
/// architecture and is new enough.
pub proof fn lemma_choice_suitable(
    runtimes: Seq<Runtime>,
    table: Seq<(String, Vec<Device>)>,
    platform: Platform,
    arch: Arch,
    minos: OSVersion,
    pair: (Runtime, Device),
)
    requires
        spec_choice(runtimes, table, platform, arch, minos) matches Ok(cs) && cs.contains(pair),
    ensures
        device_available(pair),
        device_booted(pair),
        pair.1.state == DeviceState::Booted,
        pair.1.availability is Available,
        pair.0.availability is Available,
        !pair.0.is_internal,
        runtime_usable(pair.0),
        spec_is_platform(pair.0, spec_simulator_platform_name(platform)),
        runtime_runs_arch(pair.0, spec_arch_name(arch)),
        runtime_runs_version(pair.0, minos),
{
    broadcast use vstd::seq_lib::group_filter_ensures;
    let name = spec_simulator_platform_name(platform);
    let an = spec_arch_name(arch);
    let r1 = runtimes.filter(|r: Runtime| runtime_usable(r));
    let r2 = r1.filter(|r: Runtime| spec_is_platform(r, name));
    let r3 = r2.filter(|r: Runtime| runtime_runs_arch(r, an));
    let r4 = r3.filter(|r: Runtime| runtime_runs_version(r, minos));
    let c1 = candidates(table, r4);
    let c2 = c1.filter(|p: (Runtime, Device)| device_available(p));
    let c3 = c2.filter(|p: (Runtime, Device)| device_booted(p));
    let k = choose|k: int| 0 <= k < c3.len() && c3[k] == pair;
    assert(c3.contains(pair));
    assert(c2.contains(pair)) by {
        lemma_filter_sub(c2, |p: (Runtime, Device)| device_booted(p), pair);
    }
    lemma_filter_sub(c1, |p: (Runtime, Device)| device_available(p), pair);
    lemma_candidates_runtime(table, r4, pair);
    lemma_filter_sub(r3, |r: Runtime| runtime_runs_version(r, minos), pair.0);
    lemma_filter_sub(r2, |r: Runtime| runtime_runs_arch(r, an), pair.0);
    lemma_filter_sub(r1, |r: Runtime| spec_is_platform(r, name), pair.0);
    lemma_filter_sub(runtimes, |r: Runtime| runtime_usable(r), pair.0);
}

/// The choice succeeds whenever some runtime that is available, not
/// internal, for the platform, runs the architecture and is new enough has
/// a device listed for it that is available and booted.
pub proof fn lemma_choice_found(
    runtimes: Seq<Runtime>,
    table: Seq<(String, Vec<Device>)>,
    platform: Platform,
    arch: Arch,
    minos: OSVersion,
    r: Runtime,
    d: Device,
)
    requires
        runtimes.contains(r),
        r.availability is Available,
        !r.is_internal,
        spec_is_platform(r, spec_simulator_platform_name(platform)),
        runtime_runs_arch(r, spec_arch_name(arch)),
        runtime_runs_version(r, minos),
        devices_of(table, r).contains(d),
        d.availability is Available,
        d.state == DeviceState::Booted,
    ensures
        spec_choice(runtimes, table, platform, arch, minos) matches Ok(cs) && cs.contains((r, d)),
{
    let name = spec_simulator_platform_name(platform);
    let an = spec_arch_name(arch);
    let p1 = |x: Runtime| runtime_usable(x);
    let p2 = |x: Runtime| spec_is_platform(x, name);
    let p3 = |x: Runtime| runtime_runs_arch(x, an);
    let p4 = |x: Runtime| runtime_runs_version(x, minos);
    let q1 = |x: (Runtime, Device)| device_available(x);
    let q2 = |x: (Runtime, Device)| device_booted(x);
    let r1 = runtimes.filter(p1);
    let r2 = r1.filter(p2);
    let r3 = r2.filter(p3);
    let r4 = r3.filter(p4);
    lemma_filter_keeps(runtimes, p1, r);
    lemma_filter_keeps(r1, p2, r);
    lemma_filter_keeps(r2, p3, r);
    lemma_filter_keeps(r3, p4, r);
    let c1 = candidates(table, r4);
    lemma_candidates_contains(table, r4, r, d);
    let c2 = c1.filter(q1);
    lemma_filter_keeps(c1, q1, (r, d));
    let c3 = c2.filter(q2);
    lemma_filter_keeps(c2, q2, (r, d));
    assert(runtimes.len() > 0 && r1.len() > 0 && r2.len() > 0 && r3.len() > 0 && r4.len() > 0);
    assert(c1.len() > 0 && c2.len() > 0 && c3.len() > 0);
    assert(spec_choice(runtimes, table, platform, arch, minos) == Ok::<
        Seq<(Runtime, Device)>,
        DeviceSelectionError,
    >(c3));
}

/// What satisfies the predicate stays in the filtered sequence.
proof fn lemma_filter_keeps<A>(s: Seq<A>, p: spec_fn(A) -> bool, x: A)
    requires
        s.contains(x),
        p(x),
    ensures
        s.filter(p).contains(x),
{
    let i = choose|i: int| 0 <= i < s.len() && s[i] == x;
    s.lemma_filter_contains(p, i);
}

/// Each device listed for one of the runtimes is a candidate with it.
proof fn lemma_candidates_contains(
    table: Seq<(String, Vec<Device>)>,
    rs: Seq<Runtime>,
    r: Runtime,
    d: Device,
)
    requires
        rs.contains(r),
        devices_of(table, r).contains(d),
    ensures
        candidates(table, rs).contains((r, d)),
    decreases rs.len(),
{
    let before = candidates(table, rs.drop_last());
    let tail = devices_of(table, rs.last()).map_values(|x: Device| (rs.last(), x));
    let all = candidates(table, rs);
    assert(all == before + tail);
    if rs.last() == r {
        let k = choose|k: int| 0 <= k < devices_of(table, r).len() && devices_of(table, r)[k] == d;
        assert(all[before.len() + k] == (r, d));
    } else {
        let j = choose|j: int| 0 <= j < rs.len() && rs[j] == r;
        assert(j != rs.len() - 1);
        assert(rs.drop_last()[j] == r);
        lemma_candidates_contains(table, rs.drop_last(), r, d);
        let k = choose|k: int| 0 <= k < before.len() && before[k] == (r, d);
        assert(all[k] == (r, d));
    }
}

/// What a filter keeps satisfies the predicate and was there before.
proof fn lemma_filter_sub<A>(s: Seq<A>, p: spec_fn(A) -> bool, x: A)
    requires
        s.filter(p).contains(x),
    ensures
        p(x),
        s.contains(x),
    decreases s.len(),
{
    reveal(Seq::filter);
    if s.len() > 0 {
        let rest = s.drop_last().filter(p);
        if p(s.last()) && x == s.last() {
            assert(s[s.len() - 1] == x);
        } else {
            if p(s.last()) {
                let k = choose|k: int| 0 <= k < s.filter(p).len() && s.filter(p)[k] == x;
                assert(s.filter(p) == rest.push(s.last()));
                assert(rest[k] == x);
            }
            assert(rest.contains(x));
            lemma_filter_sub(s.drop_last(), p, x);
            let k = choose|k: int| 0 <= k < s.drop_last().len() && s.drop_last()[k] == x;
            assert(s[k] == x);
        }
    }
}

/// Each candidate pairs one of the runtimes with a device.
proof fn lemma_candidates_runtime(
    table: Seq<(String, Vec<Device>)>,
    rs: Seq<Runtime>,
    pair: (Runtime, Device),
)
    requires
        candidates(table, rs).contains(pair),
    ensures
        rs.contains(pair.0),
    decreases rs.len(),
{
    if rs.len() > 0 {
        let before = candidates(table, rs.drop_last());
        let ds = devices_of(table, rs.last());
        let tail = ds.map_values(|d: Device| (rs.last(), d));
        let all = candidates(table, rs);
        assert(all == before + tail);
        let k = choose|k: int| 0 <= k < all.len() && all[k] == pair;
        if k < before.len() {
            assert(before[k] == pair);
            lemma_candidates_runtime(table, rs.drop_last(), pair);
            let j = choose|j: int| 0 <= j < rs.drop_last().len() && rs.drop_last()[j] == pair.0;
            assert(rs[j] == pair.0);
        } else {
            assert(tail[k - before.len()] == pair);
            assert(rs[rs.len() - 1] == pair.0);
        }
    }
}

} // verus!
