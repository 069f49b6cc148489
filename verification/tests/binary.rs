use cargo_apple_runner::binary::BinaryError;
use cargo_apple_runner::platform::{PLATFORM_IOSSIMULATOR, PLATFORM_MACOS, PLATFORM_TVOS};
use cargo_apple_runner::{Arch, Binary, OSVersion, Platform};

const CPU_TYPE_ARM64: u32 = 0x0100_000C;
const CPU_TYPE_X86_64: u32 = 0x0100_0007;

fn u32s(out: &mut Vec<u8>, values: &[u32]) {
    for v in values {
        out.extend_from_slice(&v.to_le_bytes());
    }
}

fn padded(name: &[u8]) -> Vec<u8> {
    let mut s = name.to_vec();
    s.push(0);
    while s.len() % 8 != 0 {
        s.push(0);
    }
    s
}

/// A dylib command (`LC_ID_DYLIB` or `LC_LOAD_DYLIB`) naming `name`.
fn dylib_command(cmd: u32, name: &[u8]) -> Vec<u8> {
    let name = padded(name);
    let mut out = Vec::new();
    u32s(&mut out, &[cmd, 24 + name.len() as u32, 24, 2, 0x10000, 0x10000]);
    out.extend_from_slice(&name);
    out
}

fn build_version(platform: u32, minos: u32, sdk: u32) -> Vec<u8> {
    let mut out = Vec::new();
    u32s(&mut out, &[0x32, 24, platform, minos, sdk, 0]);
    out
}

fn version_min(cmd: u32, version: u32, sdk: u32) -> Vec<u8> {
    let mut out = Vec::new();
    u32s(&mut out, &[cmd, 16, version, sdk]);
    out
}

fn code_signature() -> Vec<u8> {
    let mut out = Vec::new();
    u32s(&mut out, &[0x1d, 16, 0, 0]);
    out
}

fn name16(s: &str) -> [u8; 16] {
    let mut n = [0u8; 16];
    n[..s.len()].copy_from_slice(s.as_bytes());
    n
}

/// A 64-bit little-endian Mach-O executable with the given load commands,
/// followed by a `__TEXT` segment holding the given sections.
fn macho(cputype: u32, commands: &[Vec<u8>], sections: &[(&str, &str, &[u8])]) -> Vec<u8> {
    let segment_size = 72 + 80 * sections.len();
    let sizeofcmds: usize = commands.iter().map(|c| c.len()).sum::<usize>()
        + if sections.is_empty() { 0 } else { segment_size };
    let ncmds = commands.len() + if sections.is_empty() { 0 } else { 1 };
    let mut out = Vec::new();
    u32s(&mut out, &[0xfeed_facf, cputype, 0, 2, ncmds as u32, sizeofcmds as u32, 0, 0]);
    for c in commands {
        out.extend_from_slice(c);
    }
    if !sections.is_empty() {
        let data_start = 32 + sizeofcmds;
        let total: usize = sections.iter().map(|s| s.2.len()).sum();
        u32s(&mut out, &[0x19, segment_size as u32]);
        out.extend_from_slice(&name16("__TEXT"));
        for v in [0u64, total as u64, data_start as u64, total as u64] {
            out.extend_from_slice(&v.to_le_bytes());
        }
        u32s(&mut out, &[5, 5, sections.len() as u32, 0]);
        let mut offset = data_start;
        for (sect, seg, data) in sections {
            out.extend_from_slice(&name16(sect));
            out.extend_from_slice(&name16(seg));
            out.extend_from_slice(&0u64.to_le_bytes());
            out.extend_from_slice(&(data.len() as u64).to_le_bytes());
            u32s(&mut out, &[offset as u32, 0, 0, 0, 0, 0, 0, 0]);
            offset += data.len();
        }
        for (_, _, data) in sections {
            out.extend_from_slice(data);
        }
    }
    out
}

fn parse(data: &[u8]) -> Result<Binary, BinaryError> {
    Binary::parse("/target/debug/app".to_string(), data)
}

#[test]
fn reads_build_version_and_dylibs() {
    let data = macho(
        CPU_TYPE_ARM64,
        &[
            build_version(PLATFORM_IOSSIMULATOR, 0x000E_0000, 0x0011_0200),
            dylib_command(0xc, b"/usr/lib/libSystem.B.dylib"),
            dylib_command(0xc, b"/System/Library/Frameworks/UIKit.framework/UIKit"),
            dylib_command(0xd, b"@rpath/libapp.dylib"),
        ],
        &[],
    );
    let b = parse(&data).unwrap();
    assert_eq!(b.path, "/target/debug/app");
    assert_eq!(b.arch, Arch::Aarch64);
    assert_eq!(b.platform(), Platform(PLATFORM_IOSSIMULATOR));
    assert_eq!(b.minos(), OSVersion { major: 14, minor: 0, patch: 0 });
    assert_eq!(b.sdk(), OSVersion { major: 17, minor: 2, patch: 0 });
    assert_eq!(b.versions.len(), 1);
    assert_eq!(b.name.as_deref(), Some(&b"@rpath/libapp.dylib"[..]));
    assert!(b.gui_like);
    assert!(!b.signed);
    assert!(b.info_plist_data.is_none());
    assert!(b.entitlements_data.is_none());
}

#[test]
fn command_line_tool_is_not_gui_like() {
    let data = macho(
        CPU_TYPE_ARM64,
        &[
            build_version(PLATFORM_MACOS, 0x000B_0000, 0x000E_0000),
            dylib_command(0xc, b"/usr/lib/libSystem.B.dylib"),
            dylib_command(0xc, b"/System/Library/Frameworks/Foundation.framework/Versions/C/Foundation"),
            code_signature(),
        ],
        &[],
    );
    let b = parse(&data).unwrap();
    assert!(!b.gui_like);
    assert!(b.signed);
    assert_eq!(b.name, None);
    assert_eq!(b.platform(), Platform(PLATFORM_MACOS));
}

#[test]
fn appkit_makes_gui_like() {
    let data = macho(
        CPU_TYPE_X86_64,
        &[dylib_command(0xc, b"/System/Library/Frameworks/AppKit.framework/Versions/C/AppKit")],
        &[],
    );
    let b = parse(&data).unwrap();
    assert!(b.gui_like);
    assert_eq!(b.arch, Arch::X86_64);
    // No version information: the default (unknown) platform.
    assert_eq!(b.platform(), Platform(0));
    assert_eq!(b.minos(), OSVersion { major: 0, minor: 0, patch: 0 });
}

#[test]
fn old_simulator_binary() {
    let data = macho(CPU_TYPE_X86_64, &[version_min(0x25, 0x0008_0100, 0x000B_0000)], &[]);
    let b = parse(&data).unwrap();
    assert_eq!(b.platform(), Platform(PLATFORM_IOSSIMULATOR));
    assert_eq!(b.minos(), OSVersion { major: 8, minor: 1, patch: 0 });
    let data = macho(CPU_TYPE_ARM64, &[version_min(0x2F, 0x000A_0000, 0x000B_0000)], &[]);
    assert_eq!(parse(&data).unwrap().platform(), Platform(PLATFORM_TVOS));
}

#[test]
fn zippered_binary_keeps_both_versions() {
    let data = macho(
        CPU_TYPE_ARM64,
        &[build_version(PLATFORM_MACOS, 0x000B_0000, 0x000E_0000), build_version(6, 0x000E_0000, 0x0011_0000)],
        &[],
    );
    let b = parse(&data).unwrap();
    assert_eq!(b.versions.len(), 2);
    assert_eq!(b.platform(), Platform(PLATFORM_MACOS));
}

#[test]
fn embedded_sections() {
    let data = macho(
        CPU_TYPE_ARM64,
        &[build_version(PLATFORM_MACOS, 0x000B_0000, 0x000E_0000)],
        &[("__info_plist", "__TEXT", b"<plist/>"), ("__entitlements", "__TEXT", b"<ents/>")],
    );
    let b = parse(&data).unwrap();
    assert_eq!(b.info_plist_data.as_deref(), Some(&b"<plist/>"[..]));
    assert_eq!(b.entitlements_data.as_deref(), Some(&b"<ents/>"[..]));
}

#[test]
fn not_an_object_file() {
    assert!(matches!(parse(b"#!/bin/sh\necho hello\n"), Err(BinaryError::Parse(_))));
    assert!(matches!(parse(b""), Err(BinaryError::Parse(_))));
}

#[test]
fn not_mach_o() {
    // A minimal 64-bit little-endian ELF header.
    let mut elf = vec![0x7f, b'E', b'L', b'F', 2, 1, 1, 0];
    elf.extend_from_slice(&[0; 8]);
    elf.extend_from_slice(&2u16.to_le_bytes()); // e_type
    elf.extend_from_slice(&0x3eu16.to_le_bytes()); // e_machine
    elf.extend_from_slice(&1u32.to_le_bytes()); // e_version
    elf.extend_from_slice(&[0; 24]); // entry, phoff, shoff
    elf.extend_from_slice(&0u32.to_le_bytes()); // flags
    elf.extend_from_slice(&64u16.to_le_bytes()); // ehsize
    elf.extend_from_slice(&[0; 10]);
    assert!(matches!(parse(&elf), Err(BinaryError::NotMachO)));
}

#[test]
fn unreadable_load_command() {
    let mut data = macho(CPU_TYPE_ARM64, &[build_version(PLATFORM_MACOS, 0x000B_0000, 0x000E_0000)], &[]);
    // Claim a second command that is not there: the iterator fails on it.
    data[16] = 2;
    data[20] = 24 + 8;
    data.extend_from_slice(&[0xc, 0, 0, 0, 4, 0, 0, 0]);
    assert!(matches!(parse(&data), Err(BinaryError::LoadCommand(_))));
}

#[test]
fn unreadable_dylib_id() {
    let mut command = Vec::new();
    // LC_ID_DYLIB whose name offset points past the command.
    u32s(&mut command, &[0xd, 24, 200, 0, 0, 0]);
    let data = macho(CPU_TYPE_ARM64, &[command], &[]);
    assert!(matches!(parse(&data), Err(BinaryError::IdDylibName)));
}
