//! The logic of the Boppo command line tools: the credential store, file
//! synchronisation, device discovery, the USB console and the Wasm activity
//! workflow, each stated over plain values and proved.

pub mod text;
pub mod name_map;
pub mod text_laws;
pub mod sync;
pub mod sync_run;
pub mod sync_tree;
pub mod sync_laws;
pub mod sync_once;
pub mod sync_settled;
pub mod plan_laws;
pub mod listing;
pub mod remote;
pub mod credential_store;
pub mod usb;
pub mod device;
pub mod wire_laws;
pub mod copy_tree;
pub mod copy_laws;
pub mod wasm;
pub mod wasm_laws;
pub mod cli;
pub mod store_laws;
pub mod repair;
pub mod wifi;
pub mod wifi_laws;
pub mod command_laws;
