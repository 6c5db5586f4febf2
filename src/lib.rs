//! Relays on-demand audio episodes that are published only as HLS streams of
//! MPEG transport stream segments. The library holds the logic: an incremental
//! transport stream demultiplexer that extracts the AAC stream, the decisions
//! of the bridge from a blocking producer to an asynchronous byte-chunk
//! sequence, the multipart uploader that cuts that sequence into parts and
//! completes an upload at most once, and the rules that pick an episode's
//! stream and describe it in a podcast feed.

pub mod bbc;
pub mod bits;
pub mod demux_model;
pub mod error;
pub mod fetch;
pub mod hls;
pub mod mpegts;
pub mod psi;
pub mod s3_upload;
pub mod sounds_proxy;
pub mod text;
pub mod web_utils;

