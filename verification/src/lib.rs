//! Platform capsule contracts, proxies and packaging rules.
pub mod text;
pub mod halo;
pub mod amazfit;
pub mod scan;
pub mod manifest;
pub mod digest;
pub mod records;
pub mod package;
pub mod windows;
pub mod macos;
pub mod ubuntu_pc;
pub mod ubuntu_rpi;
pub mod wasi;
pub mod android_speech;
pub mod android_audio;
pub mod process;
pub mod model_process;
pub mod ubuntu_process;
pub mod sqlite;
pub mod text_edit;
pub mod find;
pub mod host_dir;
pub mod viture;
pub mod local_check;
