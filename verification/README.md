# strix

The verified core of Strix, a Windows process and performance monitor
(live process table, scrollable history, privacy alerts, temperatures,
per-app blocking). The library in `src/` is written in Verus; every
function in it carries a contract that Verus proves.

- `src/text.rs`: string primitives (Unicode trimming, separators, search,
  number formatting, UTF-16 decoding).
- `src/blocklist.rs`: the blocklist of executables and publishers, entry
  validation, the per-process verdict and the publisher cache, with the
  laws that relate adding, removing, reloading and enforcing.
- `src/consent.rs`: ConsentStore entries (camera, microphone, location)
  and their stable display order.
- `src/hwinfo.rs`: the HWiNFO shared-memory layout.
- `src/sensors.rs`: choice and combination of temperature sources,
  `nvidia-smi` output, ACPI zone labels.
- `src/version_info.rs`: executable version information.
- `src/monitor.rs`: sampler counters, per-sample figures, history window,
  command and tray decisions.
- `src/timekeeping.rs`: clock readings and FILETIME conversion.

`app/` holds the desktop shell around the library: sysinfo, SQLite, the
Windows APIs and registry, child processes, serde payloads and Tauri.
`tests/` exercises the library on concrete values.
