//! The paged `series.bin` format, version 3: fixed root, hot pages, cold pages.

pub mod header;
pub mod header_laws;
pub mod root;
pub mod hot;
pub mod page;
pub mod cold_reader;
pub mod plan_laws;
pub mod record_laws;
pub mod root_binding;
pub mod classifier;
pub mod blob_laws;
pub mod descriptor_laws;
pub mod classifier_laws;
pub mod overflow_laws;
pub mod reader;
pub mod reader_laws;
pub mod root_laws;
pub mod runtime_reader;
