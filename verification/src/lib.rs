//! Cross-device file sharing: vector-clock conflict handling, pairing, discovery, the mounted
//! client, state migration and screen streaming, as executable code with proved contracts.
pub mod age;
pub mod android;
pub mod certs;
pub mod clock;
pub mod clock_laws;
pub mod config;
pub mod device;
pub mod discovery;
pub mod discovery_laws;
pub mod file_laws;
pub mod files;
pub mod frames;
pub mod fuse;
pub mod gc;
pub mod host;
pub mod host_laws;
pub mod identity_laws;
pub mod inode;
pub mod inode_laws;
pub mod input;
pub mod keymap;
pub mod migrate;
pub mod migrate_laws;
pub mod mount_laws;
pub mod pacing;
pub mod pairing;
pub mod pairing_laws;
pub mod request_laws;
pub mod saf;
pub mod scale;
pub mod sdk;
pub mod status;
pub mod store;
pub mod stream_laws;
pub mod sweep_laws;
pub mod text;
pub mod text_laws;
pub mod transport;
pub mod travel_laws;
pub mod wall;
