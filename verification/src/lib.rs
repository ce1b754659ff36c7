//! Deterministic archive decomposition and firmware-image static inspection.
//!
//! Parser backends, detectors and format providers are untrusted mechanical facilities. This
//! crate owns byte-level interpretation of disk images, partition maps, filesystem signatures,
//! Android dynamic-partition metadata, IMG4-family DER objects and vendor packaging evidence,
//! together with the path, budget and coverage rules that keep every report truthful.

pub mod bytes;
pub mod digest;
pub mod text;

pub mod disk_image;
pub mod identity;
pub mod partition_map;
pub mod sparse_roundtrip;
pub mod partition_access;
pub mod android;
pub mod android_super;
pub mod android_ota;
pub mod android_inspect;
pub mod android_ops;
pub mod filesystem;
pub mod filesystem_inspect;
pub mod text_map;
pub mod text_ops;
pub mod archive_model;
pub mod archive_path;
pub mod archive_policy;
pub mod run_time;
pub mod apple;
pub mod apple_der;
pub mod apple_img4;
pub mod apple_archive;
pub mod apple_manifest;
pub mod apple_inspect;
pub mod apple_ops;
pub mod typing;
pub mod progressive;
pub mod document;
pub mod document_inspect;
pub mod document_adapters;
pub mod html_text;
pub mod media;
pub mod media_report;
pub mod media_inspect;
pub mod mediatek;
pub mod mediatek_scatter;
pub mod mediatek_bundle;
pub mod mediatek_evidence;
pub mod mediatek_inspect;
pub mod vendor_pkg;
pub mod qualcomm;
pub mod unisoc;
pub mod executable;
pub mod executable_inspect;
pub mod search;
pub mod search_index;
