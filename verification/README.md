# krillkounter

Accounting of block-device wear for embedded Linux systems. For each
configured block device the daemon reads the kernel's counters from
`/sys/block/<dev>/stat` at a fixed rate, and accumulates the increments and
the bytes written per device serial number, across reboots (the totals are
stored as JSON) and across device swaps (detected by the kernel's disk
sequence number).

## Layout

- `src/` — the verified library (Verus):
  - `text.rs`: Unicode whitespace, trimming, splitting into words, decimal
    parsing and rendering.
  - `block.rs`: `BlockStats`, the seventeen counters of a stat file: parsing,
    difference, accumulation.
  - `device.rs`: `DeviceEntry`, one device: initialisation, serial number,
    disk sequence number, taking a reading, the byte total with counter
    wrap-around; merging the configured devices into the stored entries;
    taking readings for all devices; the checks on the statistics file path.
  - `device_stats.rs`: `DeviceStats`, the entries keyed by serial number.
  - `config.rs`: the daemon and device configuration and their checks.
  - `daemon.rs`: `KrillKounter`, the daemon's state.
  - `clock.rs`, `paths.rs`: the calls into the `time` crate and `std::path`.
  - `log_prefix.rs`: message prefixes.
- `app/` — the program around the library: command line, reading and writing
  files, sysfs and `lsblk`, JSON, the timer loop and signal handling.
- `tests/` — tests of the library.

Everything the library reads of the system is handed to it as plain values
(`SysfsRead`, `LsblkRun`, `DeviceProbe`, `DeviceReading`); the library decides
what the daemon does with them.
