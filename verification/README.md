# boppo

Verified logic of the Boppo command line tools, in Rust with Verus.

- `src/text.rs`, `src/name_map.rs`: strings, and a map keyed by names.
- `src/credential_store.rs`: the store of paired devices.
- `src/sync.rs`, `src/sync_run.rs`: synchronising a directory tree with a device.
- `src/sync_tree.rs`, `src/sync_laws.rs`, `src/sync_once.rs`, `src/sync_settled.rs`: what
  holds of every run, over whole trees and directory by directory.
- `src/listing.rs`, `src/remote.rs`: directory listings and the device's file API.
- `src/device.rs`, `src/usb.rs`: discovery, pairing and the USB console.
- `src/wasm.rs`, `src/copy_tree.rs`: building and staging Wasm activities.
- `src/cli.rs`, `src/wifi.rs`, `src/wifi_laws.rs`, `src/repair.rs`: the commands of the
  tool, and the recovery from refused credentials.

The library performs no I/O. Where a command alternates between work outside and
decisions, the library holds the decisions as a state machine: each step says what to
do next, and takes what came of it. `app/` is the program around it: arguments, files,
network, serial ports and processes.

`app/https_client.rs` uses the HTTPS client of the Boppo workspace, the crate
`boppo_device_https_client`.
