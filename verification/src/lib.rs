//! Patching of decoded Android packages for HTTPS inspection.
pub mod text;
pub mod pattern;
pub mod attribute;
pub mod tag;
pub mod smali_head;
pub mod smali_lines;
pub mod smali_patch;
pub mod smali_tidy;
pub mod smali_file;
pub mod manifest;
pub mod text_laws;
pub mod ordinary;
pub mod head_laws;
pub mod smali_laws;
pub mod manifest_laws;
pub mod last_wins;
pub mod place;
pub mod network_config;
pub mod java;
pub mod tools;
pub mod task;
pub mod job;
pub mod report;
