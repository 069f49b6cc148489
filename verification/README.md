# cargo-apple-runner

A Cargo runner for Apple targets: it bundles, signs and launches binaries on
macOS, Mac Catalyst and the iOS, tvOS, watchOS and visionOS simulators.

The decisions of the runner form a library that is verified with Verus
(`src/`); the program around it (`app/`) reads files and the environment,
runs `codesign` and `xcrun simctl`, and hands their results to the library.

- `version`: OS versions, packed and as text, with their order.
- `platform`: Mach-O platforms, SDK names, device families, and the build
  version of a load command.
- `binary`: reading a Mach-O binary with the `object` crate.
- `bundle`: bundle layout, the generated `Info.plist`, and its bundle
  identifier (read with the `plist` crate).
- `sign`: the arguments of `codesign`.
- `simctl`: availability, runtimes and devices, and the choice of a device.
- `runner`: how a binary is run, with which entitlements and identity.
- `process`, `util`, `cargo`: other runner processes, exit codes and command
  reports, package information.
- `text`: decimal numbers, lexicographic order and searching on characters.
