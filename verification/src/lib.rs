//! Verified core of a transceiver client.
use vstd::prelude::*;

pub mod assets;
pub mod audio_bridge;
pub mod audio_client;
pub mod audio_ws;
pub mod auth;
pub mod background_decode;
pub mod backoff;
pub mod base64;
pub mod bookmarks;
pub mod calendar;
pub mod cbor;
pub mod clock;
pub mod commands;
pub mod config;
pub mod decode_log;
pub mod decoders;
pub mod desktop;
pub mod endpoint;
pub mod frontend_appkit;
pub mod frontend_http;
pub mod frontend_http_json;
pub mod gzip;
pub mod history;
pub mod http_reply;
pub mod id_table;
pub mod ids;
pub mod json_frontend;
pub mod lines;
pub mod num;
pub mod ogg;
pub mod order;
pub mod recorder;
pub mod registry;
pub mod remote;
pub mod runtime;
pub mod scheduler;
pub mod scheduler_control;
pub mod scheduler_task;
pub mod sessions;
pub mod sse;
pub mod startup;
pub mod stores;
pub mod table;
pub mod text;
pub mod vchan;

verus! {

} // verus!
